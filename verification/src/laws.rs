//! Laws: what holds of the library as a whole.
//!
//! The laws in the modules below say what each operation is for, over syntax trees, texts and
//! indices: what its result must be for any input, and how the results of two calls relate.
//!
//! - [`translating`]: which pattern an identifier names, which arguments variables stand for, and
//!   what a translation is made of.
//! - [`finding`], [`collecting`], [`cycling`]: which second definitions, faulty references and
//!   cycles are reported.
//! - [`loading`]: what is kept of the findings, and what stops the loading.
//! - [`printing`]: how numbers, dates, places and errors read.
//! - [`guarding`]: what is let through to the parser and to the formatter.
//! - [`viewing`]: what the views hold.

use crate::cycles;
use crate::duplicates;
use crate::errors;
use crate::graph;
use crate::lookup;
use crate::position;
use crate::references;
use crate::resource;
use crate::store;
use crate::syntax;
use crate::translations;
use crate::variables;
use vstd::prelude::*;

pub mod collecting;
pub mod cycling;
pub mod finding;
pub mod guarding;
pub mod loading;
pub mod printing;
pub mod translating;
pub mod viewing;

verus! {

// Cycles

/// Whether each identifier of a list refers to the next one.
pub open spec fn is_walk(graph: graph::Graph, walk: Seq<Seq<char>>) -> bool {
    &&& walk.len() > 0
    &&& forall|i: int, j: int|
        #![trigger walk[i], walk[j]]
        0 <= i && j == i + 1 && j < walk.len() ==> graph::refers(graph, walk[i], walk[j])
}

/// Whether an identifier comes up twice in a list.
pub open spec fn repeats(walk: Seq<Seq<char>>) -> bool {
    exists|i: int, j: int|
        #![trigger walk[i], walk[j]]
        0 <= i < j < walk.len() && walk[i] == walk[j]
}

/// Whether a list comes upon one of a set of identifiers.
spec fn meets(visited: Set<Seq<char>>, walk: Seq<Seq<char>>) -> bool {
    exists|i: int| 0 <= i < walk.len() && visited.contains(#[trigger] walk[i])
}

/// A trail is a walk. All of it but the end is new, and the end is not.
proof fn lemma_trail_shape(graph: graph::Graph, visited: Set<Seq<char>>, trail: Seq<Seq<char>>)
    requires
        graph::is_trail(graph, visited, trail),
    ensures
        is_walk(graph, trail),
        trail.drop_last().no_duplicates(),
        forall|i: int| 0 <= i < trail.len() - 1 ==> !visited.contains(#[trigger] trail[i]),
        visited.contains(trail.last()) || trail.drop_last().contains(trail.last()),
    decreases trail.len(),
{
    if !visited.contains(trail[0]) {
        let rest = trail.drop_first();
        let seen = visited.insert(trail[0]);
        lemma_trail_shape(graph, seen, rest);
        assert forall|i: int, j: int|
            #![trigger trail[i], trail[j]]
            0 <= i && j == i + 1 && j < trail.len() implies graph::refers(
            graph,
            trail[i],
            trail[j],
        ) by {
            if i > 0 {
                assert(trail[i] == rest[i - 1]);
                assert(trail[j] == rest[j - 1]);
            }
        }
        assert forall|i: int| 0 <= i < trail.len() - 1 implies !visited.contains(
            #[trigger] trail[i],
        ) by {
            if i > 0 {
                assert(trail[i] == rest[i - 1]);
            }
        }
        let front = trail.drop_last();
        assert forall|i: int, j: int|
            0 <= i < front.len() && 0 <= j < front.len() && i != j implies front[i] != front[j] by {
            if i > 0 && j > 0 {
                assert(front[i] == rest.drop_last()[i - 1]);
                assert(front[j] == rest.drop_last()[j - 1]);
            } else if i > 0 {
                assert(front[i] == rest[i - 1]);
            } else {
                assert(front[j] == rest[j - 1]);
            }
        }
        assert(trail.last() == rest.last());
        if !visited.contains(trail.last()) {
            if rest.drop_last().contains(rest.last()) {
                let k = rest.drop_last().index_of(rest.last());
                assert(front[k + 1] == trail.last());
            } else {
                assert(front[0] == trail.last());
            }
        }
    }
}

/// From where a walk starts that repeats itself or comes upon what was visited, a trail starts.
proof fn lemma_walk_gives_trail(
    graph: graph::Graph,
    visited: Set<Seq<char>>,
    walk: Seq<Seq<char>>,
)
    requires
        is_walk(graph, walk),
        repeats(walk) || meets(visited, walk),
    ensures
        graph::has_trail(graph, visited, walk[0]),
    decreases walk.len(),
{
    if visited.contains(walk[0]) {
        let trail = seq![walk[0]];
        assert(graph::is_trail(graph, visited, trail));
    } else {
        let seen = visited.insert(walk[0]);
        let rest = walk.drop_first();
        if meets(visited, walk) {
            let i = choose|i: int| 0 <= i < walk.len() && visited.contains(#[trigger] walk[i]);
            assert(seen.contains(rest[i - 1]));
        } else {
            let (i, j) = choose|i: int, j: int|
                #![trigger walk[i], walk[j]]
                0 <= i < j < walk.len() && walk[i] == walk[j];
            if i == 0 {
                assert(seen.contains(rest[j - 1]));
            } else {
                assert(rest[i - 1] == rest[j - 1]);
            }
        }
        assert forall|i: int, j: int|
            #![trigger rest[i], rest[j]]
            0 <= i && j == i + 1 && j < rest.len() implies graph::refers(
            graph,
            rest[i],
            rest[j],
        ) by {
            assert(rest[i] == walk[i + 1]);
            assert(rest[j] == walk[j + 1]);
        }
        lemma_walk_gives_trail(graph, seen, rest);
        assert(graph::refers(graph, walk[0], walk[1]));
        let k = graph[walk[0]].index_of(walk[1]);
        assert(graph::has_trail(graph, seen, graph[walk[0]][k]));
        graph::lemma_has_trail_step(graph, visited, walk[0]);
    }
}

/// A cycle is reached from an identifier exactly where some walk along references that starts
/// there comes upon an identifier twice.
pub proof fn law_cycle_is_repetition(graph: graph::Graph, id: Seq<char>)
    ensures
        cycles::reaches_cycle(graph, id) <==> exists|walk: Seq<Seq<char>>|
            #[trigger] is_walk(graph, walk) && walk[0] == id && repeats(walk),
{
    if cycles::reaches_cycle(graph, id) {
        let trail = choose|trail: Seq<Seq<char>>|
            #[trigger] graph::is_trail(graph, Set::empty(), trail) && trail[0] == id;
        lemma_trail_shape(graph, Set::empty(), trail);
        let k = trail.drop_last().index_of(trail.last());
        assert(trail[k] == trail[trail.len() - 1]);
        assert(repeats(trail));
    }
    if exists|walk: Seq<Seq<char>>|
        #[trigger] is_walk(graph, walk) && walk[0] == id && repeats(walk) {
        let walk = choose|walk: Seq<Seq<char>>|
            #[trigger] is_walk(graph, walk) && walk[0] == id && repeats(walk);
        lemma_walk_gives_trail(graph, Set::empty(), walk);
    }
}

/// Where a trail starts, a first trail starts.
proof fn lemma_first_trail_exists(graph: graph::Graph, visited: Set<Seq<char>>, id: Seq<char>)
    requires
        graph.dom().finite(),
        graph::has_trail(graph, visited, id),
    ensures
        exists|trail: Seq<Seq<char>>|
            #[trigger] graph::is_first_trail(graph, visited, trail) && trail[0] == id,
    decreases graph.dom().difference(visited).len(),
{
    if visited.contains(id) {
        let trail = seq![id];
        assert(graph::is_first_trail(graph, visited, trail));
    } else {
        graph::lemma_has_trail_step(graph, visited, id);
        let seen = visited.insert(id);
        let refs = graph[id];
        let j = choose|j: int|
            0 <= j < refs.len() && graph::has_trail(graph, seen, #[trigger] refs[j]);
        let i = lemma_earliest(graph, seen, refs, j);
        assert(graph.dom().difference(seen) =~= graph.dom().difference(visited).remove(id));
        lemma_first_trail_exists(graph, seen, refs[i]);
        let rest = choose|rest: Seq<Seq<char>>|
            #[trigger] graph::is_first_trail(graph, seen, rest) && rest[0] == refs[i];
        graph::lemma_first_trail_extends(graph, visited, id, i, rest);
        assert((seq![id] + rest)[0] == id);
    }
}

/// The earliest of a list of references from which a trail starts.
proof fn lemma_earliest(
    graph: graph::Graph,
    visited: Set<Seq<char>>,
    refs: Seq<Seq<char>>,
    j: int,
) -> (i: int)
    requires
        0 <= j < refs.len(),
        graph::has_trail(graph, visited, refs[j]),
    ensures
        0 <= i < refs.len(),
        graph::has_trail(graph, visited, refs[i]),
        forall|k: int| 0 <= k < i ==> !graph::has_trail(graph, visited, #[trigger] refs[k]),
    decreases j,
{
    if exists|k: int| 0 <= k < j && graph::has_trail(graph, visited, #[trigger] refs[k]) {
        let k = choose|k: int| 0 <= k < j && graph::has_trail(graph, visited, #[trigger] refs[k]);
        lemma_earliest(graph, visited, refs, k)
    } else {
        j
    }
}

/// The path that is reported for an identifier starts there, follows references, passes no
/// identifier twice, and ends at one that it passed.
pub proof fn law_cycle_path_closes(entries: Seq<syntax::EntryView>, id: Seq<char>)
    requires
        cycles::reaches_cycle(cycles::reference_graph(entries), id),
    ensures
        ({
            let path = cycles::cycle_path(cycles::reference_graph(entries), id);
            &&& is_walk(cycles::reference_graph(entries), path)
            &&& path[0] == id
            &&& path.drop_last().no_duplicates()
            &&& path.drop_last().contains(path.last())
        }),
{
    let graph = cycles::reference_graph(entries);
    cycles::lemma_graph_domain(entries);
    lemma_first_trail_exists(graph, Set::empty(), id);
    let path = cycles::cycle_path(graph, id);
    graph::lemma_first_trail_is_trail(graph, Set::empty(), path);
    lemma_trail_shape(graph, Set::empty(), path);
}

/// The errors on cycles are those on the identifiers from which a cycle is reached.
proof fn lemma_cycle_errors(graph: graph::Graph, ids: Seq<Seq<char>>)
    requires
        ids.no_duplicates(),
    ensures
        ({
            let found = cycles::cycle_errors(graph, ids);
            &&& forall|i: int|
                0 <= i < found.len() ==> {
                    &&& (#[trigger] found[i]).message_id is Some
                    &&& ids.contains(found[i].message_id->0)
                    &&& cycles::reaches_cycle(graph, found[i].message_id->0)
                    &&& found[i] == cycles::cycle_error(graph, found[i].message_id->0)
                }
            &&& forall|id: Seq<char>|
                ids.contains(id) && #[trigger] cycles::reaches_cycle(graph, id) ==> found.contains(
                    cycles::cycle_error(graph, id),
                )
            &&& forall|i: int, j: int|
                0 <= i < j < found.len() ==> (#[trigger] found[i]).message_id != (
                #[trigger] found[j]).message_id
        }),
    decreases ids.len(),
{
    if ids.len() > 0 {
        let front = ids.drop_last();
        let last = ids.last();
        let before = cycles::cycle_errors(graph, front);
        let found = cycles::cycle_errors(graph, ids);
        lemma_cycle_errors(graph, front);
        assert forall|id: Seq<char>| front.contains(id) implies ids.contains(id) && id != last by {
            let k = front.index_of(id);
            assert(ids[k] == id);
        }
        assert(ids[ids.len() - 1] == last);
        assert forall|id: Seq<char>|
            ids.contains(id) && #[trigger] cycles::reaches_cycle(
                graph,
                id,
            ) implies found.contains(cycles::cycle_error(graph, id)) by {
            if id == last {
                assert(found[found.len() - 1] == cycles::cycle_error(graph, id));
            } else {
                let k = ids.index_of(id);
                assert(front[k] == id);
                let n = before.index_of(cycles::cycle_error(graph, id));
                assert(found[n] == before[n]);
            }
        }
    }
}

/// What a list defines is what its list of identifiers holds.
proof fn lemma_defined_ids(entries: Seq<syntax::EntryView>, id: Seq<char>)
    ensures
        cycles::defined_ids(entries).contains(id) == duplicates::defines(entries, id),
    decreases entries.len(),
{
    if entries.len() > 0 {
        let front = entries.drop_last();
        lemma_defined_ids(front, id);
        duplicates::lemma_defines_step(front, entries.last(), id);
        assert(entries =~= front.push(entries.last()));
        let before = cycles::defined_ids(front);
        if let Some(own) = references::entry_id(entries.last()) {
            if !before.contains(own) {
                let ids = before.push(own);
                if before.contains(id) {
                    assert(ids[before.index_of(id)] == id);
                }
                assert(ids[before.len() as int] == own);
            }
        }
    }
}

/// Of the identifiers that a file defines, exactly those are reported from which a cycle is
/// reached, each once and with its own path.
pub proof fn law_cycle_errors_are_exact(entries: Seq<syntax::EntryView>)
    ensures
        ({
            let graph = cycles::reference_graph(entries);
            let found = cycles::entries_cycle_errors(entries);
            &&& forall|id: Seq<char>|
                duplicates::defines(entries, id) && #[trigger] cycles::reaches_cycle(
                    graph,
                    id,
                ) ==> found.contains(cycles::cycle_error(graph, id))
            &&& forall|i: int|
                0 <= i < found.len() ==> {
                    &&& (#[trigger] found[i]).message_id is Some
                    &&& duplicates::defines(entries, found[i].message_id->0)
                    &&& cycles::reaches_cycle(graph, found[i].message_id->0)
                    &&& found[i] == cycles::cycle_error(graph, found[i].message_id->0)
                }
            &&& forall|i: int, j: int|
                0 <= i < j < found.len() ==> (#[trigger] found[i]).message_id != (
                #[trigger] found[j]).message_id
        }),
{
    let graph = cycles::reference_graph(entries);
    let ids = cycles::defined_ids(entries);
    let found = cycles::entries_cycle_errors(entries);
    cycles::lemma_graph_domain(entries);
    lemma_cycle_errors(graph, ids);
    assert forall|id: Seq<char>|
        duplicates::defines(entries, id) && #[trigger] cycles::reaches_cycle(
            graph,
            id,
        ) implies found.contains(cycles::cycle_error(graph, id)) by {
        lemma_defined_ids(entries, id);
    }
    assert forall|i: int| 0 <= i < found.len() implies duplicates::defines(
        entries,
        (#[trigger] found[i]).message_id->0,
    ) by {
        lemma_defined_ids(entries, found[i].message_id->0);
    }
}

/// No cyclic reference is reported of a file exactly where no walk along its references comes
/// upon an identifier twice.
pub proof fn law_no_cycle_errors(entries: Seq<syntax::EntryView>)
    ensures
        cycles::entries_cycle_errors(entries).len() == 0 <==> forall|walk: Seq<Seq<char>>|
            #[trigger] is_walk(cycles::reference_graph(entries), walk) ==> !repeats(walk),
{
    let graph = cycles::reference_graph(entries);
    let found = cycles::entries_cycle_errors(entries);
    law_cycle_errors_are_exact(entries);
    if found.len() == 0 {
        assert forall|walk: Seq<Seq<char>>| #[trigger] is_walk(graph, walk) implies !repeats(
            walk,
        ) by {
            if repeats(walk) {
                let id = walk[0];
                law_cycle_is_repetition(graph, id);
                assert(graph::refers(graph, walk[0], walk[1]));
                cycles::lemma_graph_domain(entries);
                lemma_defined_ids(entries, id);
                assert(found.contains(cycles::cycle_error(graph, id)));
            }
        }
    } else {
        let id = found[0].message_id->0;
        law_cycle_is_repetition(graph, id);
    }
}

// References

/// Whether a store holds what is referred to.
pub open spec fn resolves(stored: store::Entries, reference: references::ReferenceView) -> bool {
    let attribute = match reference {
        references::ReferenceView::Message { attribute, .. } => attribute,
        references::ReferenceView::Term { attribute, .. } => attribute,
    };
    &&& store::holds_message(stored, reference.target())
    &&& attribute is Some ==> references::holds_attribute(
        stored,
        reference.target(),
        attribute->0,
    )
}

/// A list of references is without errors exactly where each of them resolves.
proof fn lemma_reference_errors(
    stored: store::Entries,
    owner: Seq<char>,
    list: Seq<references::ReferenceView>,
)
    ensures
        references::reference_errors(stored, owner, list).len() == 0 <==> forall|i: int|
            0 <= i < list.len() ==> resolves(stored, #[trigger] list[i]),
        references::reference_errors(stored, owner, list).len() <= list.len(),
        forall|i: int|
            0 <= i < references::reference_errors(stored, owner, list).len() ==> (
            #[trigger] references::reference_errors(stored, owner, list)[i]).message_id == Some(
                owner,
            ),
    decreases list.len(),
{
    if list.len() > 0 {
        let front = list.drop_last();
        lemma_reference_errors(stored, owner, front);
        assert(list[list.len() - 1] == list.last());
        if forall|i: int| 0 <= i < list.len() ==> resolves(stored, #[trigger] list[i]) {
            assert forall|i: int| 0 <= i < front.len() implies resolves(
                stored,
                #[trigger] front[i],
            ) by {
                assert(front[i] == list[i]);
            }
        }
        if references::reference_errors(stored, owner, list).len() == 0 {
            assert forall|i: int| 0 <= i < list.len() implies resolves(
                stored,
                #[trigger] list[i],
            ) by {
                if i < front.len() {
                    assert(front[i] == list[i]);
                }
            }
        }
    }
}

/// No reference of a file is reported exactly where the store that the file comes to holds the
/// target of each of them.
pub proof fn law_no_reference_errors(stored: store::Entries, checked: Seq<syntax::EntryView>)
    ensures
        references::entries_errors(stored, checked).len() == 0 <==> forall|i: int, k: int|
            0 <= i < checked.len() && 0 <= k < references::entry_references(checked[i]).len()
                ==> resolves(stored, #[trigger] references::entry_references(checked[i])[k]),
    decreases checked.len(),
{
    if checked.len() > 0 {
        let front = checked.drop_last();
        let last = checked.last();
        let refs = references::entry_references(last);
        law_no_reference_errors(stored, front);
        if let Some(owner) = references::entry_id(last) {
            lemma_reference_errors(stored, owner, refs);
        }
        if references::entries_errors(stored, checked).len() == 0 {
            assert(references::entries_errors(stored, front).len() == 0);
            assert forall|i: int, k: int|
                0 <= i < checked.len() && 0 <= k < references::entry_references(
                    checked[i],
                ).len() implies resolves(
                stored,
                #[trigger] references::entry_references(checked[i])[k],
            ) by {
                if i < front.len() {
                    assert(checked[i] == front[i]);
                    assert(resolves(stored, references::entry_references(front[i])[k]));
                } else {
                    assert(checked[i] == last);
                }
            }
        }
        if forall|i: int, k: int|
            0 <= i < checked.len() && 0 <= k < references::entry_references(checked[i]).len()
                ==> resolves(stored, #[trigger] references::entry_references(checked[i])[k]) {
            assert forall|i: int, k: int|
                0 <= i < front.len() && 0 <= k < references::entry_references(
                    front[i],
                ).len() implies resolves(
                stored,
                #[trigger] references::entry_references(front[i])[k],
            ) by {
                assert(front[i] == checked[i]);
                assert(resolves(stored, references::entry_references(checked[i])[k]));
            }
            assert forall|k: int| 0 <= k < refs.len() implies resolves(
                stored,
                #[trigger] refs[k],
            ) by {
                assert(resolves(
                    stored,
                    references::entry_references(checked[checked.len() - 1])[k],
                ));
            }
        }
    }
}

/// Every error on a reference tells the entry that makes the reference, by an identifier that the
/// file defines.
pub proof fn law_reference_errors_name_entries(
    stored: store::Entries,
    checked: Seq<syntax::EntryView>,
)
    ensures
        forall|i: int|
            0 <= i < references::entries_errors(stored, checked).len() ==> {
                let error = #[trigger] references::entries_errors(stored, checked)[i];
                error.message_id is Some && duplicates::defines(checked, error.message_id->0)
            },
    decreases checked.len(),
{
    if checked.len() > 0 {
        let front = checked.drop_last();
        let last = checked.last();
        let before = references::entries_errors(stored, front);
        let found = references::entries_errors(stored, checked);
        law_reference_errors_name_entries(stored, front);
        if let Some(owner) = references::entry_id(last) {
            lemma_reference_errors(stored, owner, references::entry_references(last));
        }
        assert(checked =~= front.push(last));
        assert forall|i: int| 0 <= i < found.len() implies {
            let error = #[trigger] found[i];
            error.message_id is Some && duplicates::defines(checked, error.message_id->0)
        } by {
            if i < before.len() {
                assert(found[i] == before[i]);
            } else {
                assert(found[i] == references::entry_errors(stored, last)[i - before.len()]);
            }
            duplicates::lemma_defines_step(front, last, found[i].message_id->0);
        }
    }
}

/// A name with a hyphen in front stands under nothing in a store whose names are identifiers.
proof fn lemma_no_hyphen(stored: store::Entries, id: Seq<char>)
    requires
        translations::store_is_proper(stored),
    ensures
        !store::holds_message(stored, "-"@ + id),
{
    reveal_strlit("-");
    let name = "-"@ + id;
    if store::holds_message(stored, name) {
        assert(stored.contains_key(name));
        assert(name[0] == '-');
    }
}

/// References to terms are reported whatever a bundle holds: the store is asked for a message
/// whose name has a hyphen in front, and never has one.
pub proof fn law_term_references_are_unknown(
    stored: store::Entries,
    owner: Seq<char>,
    id: Seq<char>,
    attribute: Option<Seq<char>>,
)
    requires
        translations::store_is_proper(stored),
    ensures
        references::reference_error(
            stored,
            owner,
            references::ReferenceView::Term { id, attribute },
        ) == Some(references::unknown_term(owner, id)),
{
    lemma_no_hyphen(stored, id);
}

/// Of the file that is loaded first, every reference is reported, also one to what the file itself
/// defines.
pub proof fn law_first_file_resolves_nothing(
    owner: Seq<char>,
    list: Seq<references::ReferenceView>,
)
    ensures
        references::reference_errors(store::Entries::empty(), owner, list).len() == list.len(),
    decreases list.len(),
{
    if list.len() > 0 {
        law_first_file_resolves_nothing(owner, list.drop_last());
    }
}

/// Of a list of references to what the store lacks, every one is reported, in order.
proof fn lemma_all_unknown(
    stored: store::Entries,
    owner: Seq<char>,
    list: Seq<references::ReferenceView>,
)
    requires
        forall|id: Seq<char>| !#[trigger] store::holds_message(stored, id),
    ensures
        references::reference_errors(stored, owner, list).len() == list.len(),
        forall|i: int|
            0 <= i < list.len() ==> #[trigger] references::reference_errors(
                stored,
                owner,
                list,
            )[i] == match list[i] {
                references::ReferenceView::Message { id, .. } => references::unknown_message(
                    owner,
                    id,
                ),
                references::ReferenceView::Term { id, .. } => references::unknown_term(owner, id),
            },
    decreases list.len(),
{
    if list.len() > 0 {
        lemma_all_unknown(stored, owner, list.drop_last());
        let last = list.last();
        match last {
            references::ReferenceView::Message { id, .. } => {
                assert(!store::holds_message(stored, id));
            },
            references::ReferenceView::Term { id, .. } => {
                assert(!store::holds_message(stored, "-"@ + id));
            },
        }
    }
}

/// Checking sees the references that collecting collects, in the same order: against a store
/// without messages, the errors on an expression stand one by one for the identifiers that are
/// collected from it. Those with a hyphen in front are unknown terms, the others unknown messages.
pub proof fn law_checking_sees_what_is_collected(
    stored: store::Entries,
    owner: Seq<char>,
    expression: syntax::ExpressionView,
)
    requires
        forall|id: Seq<char>| !#[trigger] store::holds_message(stored, id),
        forall|i: int|
            0 <= i < references::expression_references(expression).len() ==> (
            #[trigger] references::expression_references(expression)[i] matches
                references::ReferenceView::Message { id, .. } ==> id.len() == 0 || id[0] != '-'),
    ensures
        ({
            let list = references::expression_references(expression);
            let refs = cycles::targets(list);
            let found = references::reference_errors(stored, owner, list);
            &&& found.len() == refs.len()
            &&& forall|i: int|
                0 <= i < found.len() ==> {
                    &&& (#[trigger] found[i]).reference == Some(refs[i])
                    &&& found[i].error_type == if refs[i].len() > 0 && refs[i][0] == '-' {
                        "UnknownTerm"@
                    } else {
                        "UnknownMessage"@
                    }
                }
        }),
{
    let list = references::expression_references(expression);
    let refs = cycles::targets(list);
    let found = references::reference_errors(stored, owner, list);
    lemma_all_unknown(stored, owner, list);
    reveal_strlit("-");
    assert forall|i: int| 0 <= i < found.len() implies {
        &&& (#[trigger] found[i]).reference == Some(refs[i])
        &&& found[i].error_type == if refs[i].len() > 0 && refs[i][0] == '-' {
            "UnknownTerm"@
        } else {
            "UnknownMessage"@
        }
    } by {
        assert(refs[i] == list[i].target());
        match list[i] {
            references::ReferenceView::Message { .. } => {},
            references::ReferenceView::Term { id, .. } => {
                assert(("-"@ + id)[0] == '-');
            },
        }
    }
}

// Second definitions

/// No second definition is reported of a file exactly where its identifiers differ from each other
/// and from those of the messages in the store.
pub proof fn law_no_duplicate_errors(stored: store::Entries, entries: Seq<syntax::EntryView>)
    ensures
        duplicates::duplicate_errors(stored, entries).len() == 0 <==> {
            &&& forall|i: int|
                0 <= i < entries.len() && references::entry_id(#[trigger] entries[i]) is Some
                    ==> !store::holds_message(stored, references::entry_id(entries[i])->0)
            &&& forall|i: int, j: int|
                0 <= i < j < entries.len() && references::entry_id(#[trigger] entries[i]) is Some
                    ==> references::entry_id(entries[i]) != references::entry_id(
                    #[trigger] entries[j],
                )
        },
    decreases entries.len(),
{
    if entries.len() > 0 {
        let front = entries.drop_last();
        let last = entries.last();
        law_no_duplicate_errors(stored, front);
        assert(entries[entries.len() - 1] == last);
        assert forall|i: int| 0 <= i < front.len() implies front[i] == entries[i] by {}
        if let Some(id) = references::entry_id(last) {
            if duplicates::defines(front, id) {
                let i = choose|i: int|
                    0 <= i < front.len() && references::entry_id(#[trigger] front[i]) == Some(id);
                assert(references::entry_id(entries[i]) == references::entry_id(
                    entries[entries.len() - 1],
                ));
            }
        }
        if duplicates::duplicate_errors(stored, entries).len() == 0 {
            assert forall|i: int, j: int|
                0 <= i < j < entries.len() && references::entry_id(
                    #[trigger] entries[i],
                ) is Some implies references::entry_id(entries[i]) != references::entry_id(
                #[trigger] entries[j],
            ) by {
                if j == front.len() {
                    if references::entry_id(entries[i]) == references::entry_id(last) {
                        assert(references::entry_id(front[i]) == references::entry_id(last));
                    }
                } else {
                    assert(front[i] == entries[i] && front[j] == entries[j]);
                }
            }
            assert forall|i: int|
                0 <= i < entries.len() && references::entry_id(
                    #[trigger] entries[i],
                ) is Some implies !store::holds_message(
                stored,
                references::entry_id(entries[i])->0,
            ) by {
                if i < front.len() {
                    assert(front[i] == entries[i]);
                }
            }
        } else if duplicates::duplicate_errors(stored, front).len() > 0 {
            if forall|i: int|
                0 <= i < front.len() && references::entry_id(#[trigger] front[i]) is Some
                    ==> !store::holds_message(stored, references::entry_id(front[i])->0) {
                let (i, j) = choose|i: int, j: int|
                    0 <= i < j < front.len() && references::entry_id(#[trigger] front[i]) is Some
                        && references::entry_id(front[i]) == references::entry_id(
                        #[trigger] front[j],
                    );
                assert(front[i] == entries[i] && front[j] == entries[j]);
            } else {
                let i = choose|i: int|
                    0 <= i < front.len() && references::entry_id(#[trigger] front[i]) is Some
                        && store::holds_message(stored, references::entry_id(front[i])->0);
                assert(front[i] == entries[i]);
            }
        }
    }
}

/// A second definition of a term is found within its file only, never against the bundle.
pub proof fn law_terms_repeat_within_files(
    stored: store::Entries,
    earlier: Seq<syntax::EntryView>,
    id: Seq<char>,
)
    requires
        translations::store_is_proper(stored),
    ensures
        duplicates::is_taken(stored, earlier, "-"@ + id) == duplicates::defines(
            earlier,
            "-"@ + id,
        ),
{
    lemma_no_hyphen(stored, id);
}

// Cycles against references and second definitions

/// What an identifier refers to is what one of the entries under it refers to.
proof fn lemma_edges_of_entry(entries: Seq<syntax::EntryView>, id: Seq<char>) -> (k: int)
    requires
        cycles::reference_graph(entries).contains_key(id),
    ensures
        0 <= k < entries.len(),
        references::entry_id(entries[k]) == Some(id),
        cycles::reference_graph(entries)[id] == cycles::targets(
            references::entry_references(entries[k]),
        ),
    decreases entries.len(),
{
    if references::entry_id(entries.last()) == Some(id) {
        entries.len() - 1
    } else {
        lemma_edges_of_entry(entries.drop_last(), id)
    }
}

/// A file without second definitions and without faulty references has no cycles: what a cycle
/// refers to would have to be in the store, and is defined in the file.
pub proof fn law_faultless_files_have_no_cycles(
    stored: store::Entries,
    entries: Seq<syntax::EntryView>,
)
    requires
        duplicates::duplicate_errors(stored, entries).len() == 0,
        references::entries_errors(stored, entries).len() == 0,
    ensures
        cycles::entries_cycle_errors(entries).len() == 0,
{
    let graph = cycles::reference_graph(entries);
    law_no_duplicate_errors(stored, entries);
    law_no_reference_errors(stored, entries);
    law_no_cycle_errors(entries);
    assert forall|walk: Seq<Seq<char>>| #[trigger] is_walk(graph, walk) implies !repeats(walk) by {
        if repeats(walk) {
            let (i, j) = choose|i: int, j: int|
                #![trigger walk[i], walk[j]]
                0 <= i < j < walk.len() && walk[i] == walk[j];
            let id = walk[j];
            assert(graph::refers(graph, walk[i], walk[i + 1]));
            assert(graph::refers(graph, walk[j - 1], walk[j]));
            let defining = lemma_edges_of_entry(entries, id);
            let referring = lemma_edges_of_entry(entries, walk[j - 1]);
            let list = references::entry_references(entries[referring]);
            let k = graph[walk[j - 1]].index_of(id);
            assert(list[k].target() == id);
            assert(resolves(stored, references::entry_references(entries[referring])[k]));
            assert(references::entry_id(entries[defining]) == Some(id));
        }
    }
}

// The store

/// The name under which an entry stands in a store, without the hyphen of a term.
pub open spec fn stored_name(entry: syntax::EntryView) -> Option<Seq<char>> {
    match entry {
        syntax::EntryView::Message(message) => Some(message.id),
        syntax::EntryView::Term(term) => Some(term.id),
        syntax::EntryView::Other => None,
    }
}

/// Whether the entry at index `i` is the last of a list to stand under its name.
pub open spec fn is_last_under(added: Seq<syntax::EntryView>, i: int, name: Seq<char>) -> bool {
    &&& 0 <= i < added.len()
    &&& stored_name(added[i]) == Some(name)
    &&& forall|k: int| i < k < added.len() ==> stored_name(#[trigger] added[k]) != Some(name)
}

/// The later definition overrides: under each name stands, once a file is added, the last entry of
/// that name in the file.
pub proof fn law_later_definition_overrides(
    stored: store::Entries,
    added: Seq<syntax::EntryView>,
    i: int,
    name: Seq<char>,
)
    requires
        is_last_under(added, i, name),
    ensures
        store::with_entries(stored, added).contains_key(name),
        store::with_entries(stored, added)[name] == added[i],
    decreases added.len(),
{
    if i < added.len() - 1 {
        let front = added.drop_last();
        assert forall|k: int| i < k < front.len() implies stored_name(#[trigger] front[k]) != Some(
            name,
        ) by {
            assert(front[k] == added[k]);
        }
        law_later_definition_overrides(stored, front, i, name);
        assert(stored_name(added[added.len() - 1]) != Some(name));
    }
}

/// What a file does not define stays as it was.
pub proof fn law_other_names_stay(
    stored: store::Entries,
    added: Seq<syntax::EntryView>,
    name: Seq<char>,
)
    requires
        forall|k: int| 0 <= k < added.len() ==> stored_name(#[trigger] added[k]) != Some(name),
    ensures
        store::with_entries(stored, added).contains_key(name) == stored.contains_key(name),
        stored.contains_key(name) ==> store::with_entries(stored, added)[name] == stored[name],
    decreases added.len(),
{
    if added.len() > 0 {
        let front = added.drop_last();
        assert forall|k: int| 0 <= k < front.len() implies stored_name(#[trigger] front[k]) != Some(
            name,
        ) by {
            assert(front[k] == added[k]);
        }
        law_other_names_stay(stored, front, name);
        assert(stored_name(added[added.len() - 1]) != Some(name));
    }
}

// Lookup

/// Where a text without a full stop is followed by nothing or by a full stop, that is where the
/// first full stop lies.
proof fn lemma_stop_behind(id: Seq<char>, rest: Seq<char>)
    requires
        forall|k: int| 0 <= k < id.len() ==> #[trigger] id[k] != '.',
        rest.len() > 0 ==> rest[0] == '.',
    ensures
        lookup::first_stop(id + rest) == id.len(),
    decreases id.len(),
{
    let text = id + rest;
    if id.len() == 0 {
        assert(text =~= rest);
    } else {
        assert forall|k: int| 0 <= k < id.drop_first().len() implies #[trigger] id.drop_first()[k]
            != '.' by {
            assert(id.drop_first()[k] == id[k + 1]);
        }
        assert(text[0] == id[0]);
        assert(text.drop_first() =~= id.drop_first() + rest);
        lemma_stop_behind(id.drop_first(), rest);
    }
}

/// An identifier names a message, and with a full stop and a name behind it an attribute of that
/// message. The name of the attribute may itself hold full stops.
pub proof fn law_identifiers_split(id: Seq<char>, attribute: Seq<char>)
    requires
        resource::is_identifier(id),
    ensures
        lookup::split_identifier(id) == (id, None::<Seq<char>>),
        lookup::split_identifier(id + "."@ + attribute) == (id, Some(attribute)),
{
    reveal_strlit(".");
    let none = Seq::<char>::empty();
    lemma_stop_behind(id, none);
    assert(id + none =~= id);
    let rest = "."@ + attribute;
    lemma_stop_behind(id, rest);
    let whole = id + "."@ + attribute;
    assert(whole =~= id + rest);
    assert(whole.take(id.len() as int) =~= id);
    assert(whole.skip(id.len() as int + 1) =~= attribute);
}

/// What was loaded can be asked for: the identifier of the last message of a name in a file names
/// the value of that message, and with an attribute behind it the first attribute of that name.
pub proof fn law_loaded_messages_are_found(
    stored: store::Entries,
    added: Seq<syntax::EntryView>,
    i: int,
    attribute: Seq<char>,
)
    requires
        0 <= i < added.len(),
        added[i] is Message,
        resource::has_proper_id(added[i]),
        is_last_under(added, i, added[i]->Message_0.id),
    ensures
        ({
            let message = added[i]->Message_0;
            let entries = store::with_entries(stored, added);
            &&& lookup::named_pattern(entries, message.id) == match message.value {
                Some(pattern) => Ok::<syntax::PatternView, Seq<char>>(pattern),
                None => Err(lookup::has_no_value(message.id)),
            }
            &&& lookup::named_pattern(entries, message.id + "."@ + attribute)
                == match store::attribute_value(message.attributes, attribute) {
                Some(pattern) => Ok::<syntax::PatternView, Seq<char>>(pattern),
                None => Err(
                    lookup::attribute_not_found(
                        message.id + "."@ + attribute,
                        message.id,
                        attribute,
                    ),
                ),
            }
        }),
{
    let id = added[i]->Message_0.id;
    law_later_definition_overrides(stored, added, i, id);
    law_identifiers_split(id, attribute);
}

/// A term is not translated by itself, and neither is a message whose name a later term took: no
/// identifier that names it is found.
pub proof fn law_terms_are_not_found(
    stored: store::Entries,
    added: Seq<syntax::EntryView>,
    i: int,
)
    requires
        translations::store_is_proper(store::with_entries(stored, added)),
        0 <= i < added.len(),
        added[i] is Term,
        is_last_under(added, i, added[i]->Term_0.id),
    ensures
        lookup::named_pattern(store::with_entries(stored, added), added[i]->Term_0.id) == Err::<
            syntax::PatternView,
            Seq<char>,
        >(lookup::not_found(added[i]->Term_0.id)),
        lookup::named_pattern(store::with_entries(stored, added), "-"@ + added[i]->Term_0.id)
            is Err,
{
    let id = added[i]->Term_0.id;
    let entries = store::with_entries(stored, added);
    law_later_definition_overrides(stored, added, i, id);
    assert(entries.contains_key(id));
    law_identifiers_split(id, Seq::empty());
    reveal_strlit("-");
    let hyphened = "-"@ + id;
    assert forall|k: int| 0 <= k < hyphened.len() implies #[trigger] hyphened[k] != '.' by {
        if k > 0 {
            assert(hyphened[k] == id[k - 1]);
        }
    }
    let none = Seq::<char>::empty();
    lemma_stop_behind(hyphened, none);
    assert(hyphened + none =~= hyphened);
    lemma_no_hyphen(entries, id);
}

// Loading

/// In strict mode a file is loaded exactly where nothing is found: no parser error, no second
/// definition and, where references are validated, no faulty and no cyclic reference.
pub proof fn law_strict_files_are_faultless(
    stored: store::Entries,
    path: Seq<char>,
    source: Seq<char>,
    validate_references: bool,
)
    ensures
        translations::file_findings(stored, path, source, true, validate_references) is Ok <==> {
            let parse = resource::parsed(source);
            &&& parse.errors.len() == 0
            &&& duplicates::duplicate_errors(stored, parse.entries).len() == 0
            &&& validate_references ==> {
                &&& references::entries_errors(stored, parse.entries).len() == 0
                &&& cycles::entries_cycle_errors(parse.entries).len() == 0
            }
        },
        translations::file_findings(stored, path, source, true, validate_references) matches Ok(
            found,
        ) ==> found.len() == 0,
{
}

/// A bundle that is made in strict mode has kept no errors.
pub proof fn law_strict_bundles_keep_no_errors(
    files: Seq<translations::SourceFileView>,
    validate_references: bool,
)
    ensures
        translations::loaded_files(files, true, validate_references) matches Ok(loaded)
            ==> loaded.errors == Seq::<errors::ValidationErrorView>::empty(),
    decreases files.len(),
{
    if files.len() > 0 {
        let front = files.drop_last();
        law_strict_bundles_keep_no_errors(front, validate_references);
        if let Ok(before) = translations::loaded_files(front, true, validate_references) {
            if let Some(source) = files.last().contents {
                law_strict_files_are_faultless(
                    before.entries,
                    files.last().path,
                    source,
                    validate_references,
                );
            }
        }
    }
}

/// What strict mode accepts, it loads as the other mode does.
pub proof fn law_strictness_only_refuses(
    files: Seq<translations::SourceFileView>,
    validate_references: bool,
)
    requires
        translations::loaded_files(files, true, validate_references) is Ok,
    ensures
        translations::loaded_files(files, false, validate_references)
            == translations::loaded_files(files, true, validate_references),
    decreases files.len(),
{
    if files.len() > 0 {
        law_strictness_only_refuses(files.drop_last(), validate_references);
    }
}

/// Outside strict mode, files are loaded whatever is found in them, unless one cannot be read.
/// Then the first such file is told.
pub proof fn law_lenient_loading(
    files: Seq<translations::SourceFileView>,
    validate_references: bool,
)
    ensures
        match translations::loaded_files(files, false, validate_references) {
            Ok(_) => forall|i: int| 0 <= i < files.len() ==> (#[trigger] files[i]).contents is Some,
            Err(reason) => {
                &&& reason matches translations::BundleErrorView::FileNotFound(index)
                &&& 0 <= index < files.len()
                &&& files[index].contents is None
                &&& forall|i: int| 0 <= i < index ==> (#[trigger] files[i]).contents is Some
            },
        },
    decreases files.len(),
{
    if files.len() > 0 {
        let front = files.drop_last();
        law_lenient_loading(front, validate_references);
        assert forall|i: int| 0 <= i < front.len() implies front[i] == files[i] by {}
        match translations::loaded_files(front, false, validate_references) {
            Ok(_) => {
                assert forall|i: int| 0 <= i < front.len() implies (
                #[trigger] files[i]).contents is Some by {
                    assert(front[i].contents is Some);
                }
            },
            Err(reason) => {
                let index = reason->FileNotFound_0;
                assert(front[index] == files[index]);
                assert forall|i: int| 0 <= i < index implies (
                #[trigger] files[i]).contents is Some by {
                    assert(front[i].contents is Some);
                }
            },
        }
    }
}

/// Validating references changes what is reported, and not what is loaded.
pub proof fn law_validation_leaves_entries(files: Seq<translations::SourceFileView>, strict: bool)
    requires
        translations::loaded_files(files, strict, true) is Ok,
    ensures
        translations::loaded_files(files, strict, false) is Ok,
        translations::loaded_files(files, strict, false)->Ok_0.entries
            == translations::loaded_files(files, strict, true)->Ok_0.entries,
    decreases files.len(),
{
    if files.len() > 0 {
        law_validation_leaves_entries(files.drop_last(), strict);
    }
}

/// Without validation of references, second definitions are all that is reported.
pub proof fn law_unvalidated_errors_are_duplicates(
    files: Seq<translations::SourceFileView>,
    strict: bool,
)
    ensures
        translations::loaded_files(files, strict, false) matches Ok(loaded) ==> forall|i: int|
            0 <= i < loaded.errors.len() ==> (#[trigger] loaded.errors[i]).error_type
                == "DuplicateMessageId"@,
    decreases files.len(),
{
    if files.len() > 0 {
        let front = files.drop_last();
        law_unvalidated_errors_are_duplicates(front, strict);
        if let Ok(before) = translations::loaded_files(front, strict, false) {
            if let Some(source) = files.last().contents {
                lemma_duplicate_type(before.entries, resource::parsed(source).entries);
            }
        }
    }
}

/// The errors on second definitions are all of one type.
proof fn lemma_duplicate_type(stored: store::Entries, entries: Seq<syntax::EntryView>)
    ensures
        forall|i: int|
            0 <= i < duplicates::duplicate_errors(stored, entries).len() ==> (
            #[trigger] duplicates::duplicate_errors(stored, entries)[i]).error_type
                == "DuplicateMessageId"@,
    decreases entries.len(),
{
    if entries.len() > 0 {
        lemma_duplicate_type(stored, entries.drop_last());
    }
}

/// Whether all files that can be read parse without errors.
pub open spec fn files_parse(files: Seq<translations::SourceFileView>) -> bool {
    forall|i: int|
        0 <= i < files.len() ==> ((#[trigger] files[i]).contents matches Some(source)
            ==> resource::parsed(source).errors.len() == 0)
}

/// Strict mode makes a bundle exactly where the other mode makes one without errors and all files
/// parse. The two bundles are then the same.
pub proof fn law_strict_is_lenient_without_findings(
    language: Seq<char>,
    files: Seq<translations::SourceFileView>,
    validate_references: bool,
)
    ensures
        translations::made_bundle(language, files, true, validate_references) is Ok <==> {
            &&& translations::made_bundle(language, files, false, validate_references) is Ok
            &&& translations::made_bundle(
                language,
                files,
                false,
                validate_references,
            )->Ok_0.errors.len() == 0
            &&& files_parse(files)
        },
        translations::made_bundle(language, files, true, validate_references) is Ok
            ==> translations::made_bundle(language, files, true, validate_references)
            == translations::made_bundle(language, files, false, validate_references),
{
    if store::canonical_language(language) is Some {
        lemma_strict_loading(files, validate_references);
    }
}

/// What strict loading accepts.
proof fn lemma_strict_loading(
    files: Seq<translations::SourceFileView>,
    validate_references: bool,
)
    ensures
        translations::loaded_files(files, true, validate_references) is Ok <==> {
            &&& translations::loaded_files(files, false, validate_references) is Ok
            &&& translations::loaded_files(files, false, validate_references)->Ok_0.errors.len()
                == 0
            &&& files_parse(files)
        },
        translations::loaded_files(files, true, validate_references) is Ok
            ==> translations::loaded_files(files, true, validate_references)
            == translations::loaded_files(files, false, validate_references),
    decreases files.len(),
{
    if files.len() > 0 {
        let front = files.drop_last();
        let last = files.last();
        lemma_strict_loading(front, validate_references);
        assert(files[files.len() - 1] == last);
        assert forall|i: int| 0 <= i < front.len() implies front[i] == files[i] by {}
        if files_parse(files) {
            assert forall|i: int| 0 <= i < front.len() implies ((
            #[trigger] front[i]).contents matches Some(source) ==> resource::parsed(
                source,
            ).errors.len() == 0) by {
                assert(front[i] == files[i]);
            }
        }
        if translations::loaded_files(files, true, validate_references) is Ok {
            law_strict_bundles_keep_no_errors(files, validate_references);
            law_strictness_only_refuses(files, validate_references);
            assert forall|i: int| 0 <= i < files.len() implies ((
            #[trigger] files[i]).contents matches Some(source) ==> resource::parsed(
                source,
            ).errors.len() == 0) by {
                if i < front.len() {
                    assert(front[i] == files[i]);
                }
            }
        }
    }
}

/// Whether an error is on a second definition.
pub open spec fn is_duplicate() -> spec_fn(errors::ValidationErrorView) -> bool {
    |e: errors::ValidationErrorView| e.error_type == "DuplicateMessageId"@
}

/// A list of errors on second definitions stays whole when such errors are picked out.
proof fn lemma_all_duplicates(list: Seq<errors::ValidationErrorView>)
    requires
        forall|i: int| 0 <= i < list.len() ==> is_duplicate()(#[trigger] list[i]),
    ensures
        list.filter(is_duplicate()) == list,
    decreases list.len(),
{
    reveal(Seq::filter);
    if list.len() > 0 {
        assert forall|i: int| 0 <= i < list.drop_last().len() implies is_duplicate()(
            #[trigger] list.drop_last()[i],
        ) by {
            assert(list.drop_last()[i] == list[i]);
        }
        lemma_all_duplicates(list.drop_last());
        assert(is_duplicate()(list[list.len() - 1]));
        assert(list =~= list.drop_last().push(list.last()));
    }
}

/// From a list without errors on second definitions, none is picked out.
proof fn lemma_no_duplicates(list: Seq<errors::ValidationErrorView>)
    requires
        forall|i: int| 0 <= i < list.len() ==> !is_duplicate()(#[trigger] list[i]),
    ensures
        list.filter(is_duplicate()) == Seq::<errors::ValidationErrorView>::empty(),
    decreases list.len(),
{
    reveal(Seq::filter);
    if list.len() > 0 {
        assert forall|i: int| 0 <= i < list.drop_last().len() implies !is_duplicate()(
            #[trigger] list.drop_last()[i],
        ) by {
            assert(list.drop_last()[i] == list[i]);
        }
        lemma_no_duplicates(list.drop_last());
        assert(!is_duplicate()(list[list.len() - 1]));
    }
}

/// What is picked out of two lists together.
proof fn lemma_filter_concat(
    left: Seq<errors::ValidationErrorView>,
    right: Seq<errors::ValidationErrorView>,
)
    ensures
        (left + right).filter(is_duplicate()) == left.filter(is_duplicate()) + right.filter(
            is_duplicate(),
        ),
    decreases right.len(),
{
    reveal(Seq::filter);
    if right.len() == 0 {
        assert(left + right =~= left);
        assert(left.filter(is_duplicate()) + right =~= left.filter(is_duplicate()));
    } else {
        lemma_filter_concat(left, right.drop_last());
        assert((left + right).drop_last() =~= left + right.drop_last());
        assert((left + right).last() == right.last());
        assert((left + right).filter(is_duplicate()) =~= left.filter(is_duplicate())
            + right.filter(is_duplicate()));
    }
}

/// No error on a reference or on a cycle is one on a second definition.
proof fn lemma_other_types()
    ensures
        "UnknownMessage"@ != "DuplicateMessageId"@,
        "UnknownTerm"@ != "DuplicateMessageId"@,
        "UnknownAttribute"@ != "DuplicateMessageId"@,
        "CyclicReference"@ != "DuplicateMessageId"@,
{
    reveal_strlit("DuplicateMessageId");
    reveal_strlit("UnknownMessage");
    reveal_strlit("UnknownTerm");
    reveal_strlit("UnknownAttribute");
    reveal_strlit("CyclicReference");
    assert("DuplicateMessageId"@.len() == 18);
    assert("UnknownMessage"@.len() == 14);
    assert("UnknownTerm"@.len() == 11);
    assert("UnknownAttribute"@.len() == 16);
    assert("CyclicReference"@.len() == 15);
}

/// No error on the references of entries is one on a second definition.
proof fn lemma_reference_types(stored: store::Entries, checked: Seq<syntax::EntryView>)
    ensures
        forall|i: int|
            0 <= i < references::entries_errors(stored, checked).len() ==> !is_duplicate()(
                #[trigger] references::entries_errors(stored, checked)[i],
            ),
    decreases checked.len(),
{
    if checked.len() > 0 {
        lemma_reference_types(stored, checked.drop_last());
        let before = references::entries_errors(stored, checked.drop_last());
        let added = references::entry_errors(stored, checked.last());
        if let Some(owner) = references::entry_id(checked.last()) {
            lemma_listed_types(stored, owner, references::entry_references(checked.last()));
        }
        assert forall|i: int| 0 <= i < (before + added).len() implies !is_duplicate()(
            #[trigger] (before + added)[i],
        ) by {
            if i < before.len() {
                assert((before + added)[i] == before[i]);
            } else {
                assert((before + added)[i] == added[i - before.len()]);
            }
        }
    }
}

/// No error on a list of references is one on a second definition.
proof fn lemma_listed_types(
    stored: store::Entries,
    owner: Seq<char>,
    list: Seq<references::ReferenceView>,
)
    ensures
        forall|i: int|
            0 <= i < references::reference_errors(stored, owner, list).len() ==> !is_duplicate()(
                #[trigger] references::reference_errors(stored, owner, list)[i],
            ),
    decreases list.len(),
{
    if list.len() > 0 {
        lemma_listed_types(stored, owner, list.drop_last());
        lemma_other_types();
        let before = references::reference_errors(stored, owner, list.drop_last());
        let found = references::reference_errors(stored, owner, list);
        assert forall|i: int| 0 <= i < found.len() implies !is_duplicate()(#[trigger] found[i]) by {
            if i < before.len() {
                assert(found[i] == before[i]);
            }
        }
    }
}

/// No error on a cycle is one on a second definition.
proof fn lemma_cycle_types(graph: graph::Graph, ids: Seq<Seq<char>>)
    ensures
        forall|i: int|
            0 <= i < cycles::cycle_errors(graph, ids).len() ==> !is_duplicate()(
                #[trigger] cycles::cycle_errors(graph, ids)[i],
            ),
    decreases ids.len(),
{
    if ids.len() > 0 {
        lemma_cycle_types(graph, ids.drop_last());
        lemma_other_types();
        let before = cycles::cycle_errors(graph, ids.drop_last());
        let found = cycles::cycle_errors(graph, ids);
        assert forall|i: int| 0 <= i < found.len() implies !is_duplicate()(#[trigger] found[i]) by {
            if i < before.len() {
                assert(found[i] == before[i]);
            }
        }
    }
}

/// Outside strict mode, validating references makes no difference to whether a bundle is made and
/// to what is loaded. The errors without validation are those on second definitions among the
/// errors with validation, in the same order.
pub proof fn law_validation_adds_errors(
    language: Seq<char>,
    files: Seq<translations::SourceFileView>,
)
    ensures
        ({
            let with = translations::made_bundle(language, files, false, true);
            let without = translations::made_bundle(language, files, false, false);
            &&& with is Ok <==> without is Ok
            &&& with is Ok ==> {
                &&& without->Ok_0.entries == with->Ok_0.entries
                &&& without->Ok_0.errors == with->Ok_0.errors.filter(is_duplicate())
            }
        }),
{
    if store::canonical_language(language) is Some {
        lemma_validation_adds_errors(files);
    }
}

/// What validation adds to loading.
proof fn lemma_validation_adds_errors(files: Seq<translations::SourceFileView>)
    ensures
        ({
            let with = translations::loaded_files(files, false, true);
            let without = translations::loaded_files(files, false, false);
            &&& with is Ok <==> without is Ok
            &&& with is Ok ==> {
                &&& without->Ok_0.entries == with->Ok_0.entries
                &&& without->Ok_0.errors == with->Ok_0.errors.filter(is_duplicate())
            }
        }),
    decreases files.len(),
{
    reveal(Seq::filter);
    if files.len() > 0 {
        let front = files.drop_last();
        lemma_validation_adds_errors(front);
        if let Ok(before) = translations::loaded_files(front, false, true) {
            if let Some(source) = files.last().contents {
                let entries = resource::parsed(source).entries;
                let second = duplicates::duplicate_errors(before.entries, entries);
                let faulty = references::entries_errors(before.entries, entries);
                let cyclic = cycles::entries_cycle_errors(entries);
                lemma_duplicate_type(before.entries, entries);
                lemma_all_duplicates(second);
                lemma_reference_types(before.entries, entries);
                lemma_no_duplicates(faulty);
                lemma_cycle_types(
                    cycles::reference_graph(entries),
                    cycles::defined_ids(entries),
                );
                lemma_no_duplicates(cyclic);
                lemma_filter_concat(second + faulty, cyclic);
                lemma_filter_concat(second, faulty);
                lemma_filter_concat(before.errors, second + faulty + cyclic);
                assert((second + faulty + cyclic).filter(is_duplicate()) =~= second);
            }
        }
    }
}

/// The entries of a file.
pub open spec fn file_entries(file: translations::SourceFileView) -> Seq<syntax::EntryView> {
    match file.contents {
        Some(source) => resource::parsed(source).entries,
        None => Seq::empty(),
    }
}

/// Whether the entry at index `i` of the file at index `f` is the last of a list of files to stand
/// under its name.
pub open spec fn is_last_in_files(
    files: Seq<translations::SourceFileView>,
    f: int,
    i: int,
    name: Seq<char>,
) -> bool {
    &&& 0 <= f < files.len()
    &&& is_last_under(file_entries(files[f]), i, name)
    &&& forall|g: int, k: int|
        f < g < files.len() && 0 <= k < file_entries(files[g]).len() ==> stored_name(
            #[trigger] file_entries(files[g])[k],
        ) != Some(name)
}

/// Under each name stands, in a bundle, the last entry of that name in the last file that has one.
pub proof fn law_last_definition_counts(
    files: Seq<translations::SourceFileView>,
    strict: bool,
    validate_references: bool,
    f: int,
    i: int,
    name: Seq<char>,
)
    requires
        translations::loaded_files(files, strict, validate_references) is Ok,
        is_last_in_files(files, f, i, name),
    ensures
        ({
            let entries = translations::loaded_files(
                files,
                strict,
                validate_references,
            )->Ok_0.entries;
            entries.contains_key(name) && entries[name] == file_entries(files[f])[i]
        }),
    decreases files.len(),
{
    let front = files.drop_last();
    let before = translations::loaded_files(front, strict, validate_references)->Ok_0;
    let added = file_entries(files.last());
    if f == files.len() - 1 {
        law_later_definition_overrides(before.entries, added, i, name);
    } else {
        assert(front[f] == files[f]);
        assert forall|g: int, k: int|
            f < g < front.len() && 0 <= k < file_entries(front[g]).len() implies stored_name(
            #[trigger] file_entries(front[g])[k],
        ) != Some(name) by {
            assert(stored_name(file_entries(files[g])[k]) != Some(name));
        }
        law_last_definition_counts(front, strict, validate_references, f, i, name);
        assert forall|k: int| 0 <= k < added.len() implies stored_name(#[trigger] added[k]) != Some(
            name,
        ) by {
            assert(stored_name(file_entries(files[files.len() - 1])[k]) != Some(name));
        }
        law_other_names_stay(before.entries, added, name);
    }
}

/// A bundle translates what was loaded: asked for the identifier of a message that no later entry
/// took the name of, it formats the value which that message has in its file.
pub proof fn law_bundles_translate_what_was_loaded(
    bundle: translations::Bundle,
    files: Seq<translations::SourceFileView>,
    strict: bool,
    validate_references: bool,
    f: int,
    i: int,
    variables: Seq<variables::Variable>,
)
    requires
        bundle.wf(),
        translations::loaded_files(files, strict, validate_references) == Ok::<
            translations::LoadedView,
            translations::BundleErrorView,
        >(translations::LoadedView { entries: bundle.entries(), errors: bundle.errors() }),
        0 <= f < files.len(),
        0 <= i < file_entries(files[f]).len(),
        file_entries(files[f])[i] is Message,
        file_entries(files[f])[i]->Message_0.value is Some,
        is_last_in_files(files, f, i, file_entries(files[f])[i]->Message_0.id),
        variables::variables_arguments(variables) is Ok,
    ensures
        ({
            let message = file_entries(files[f])[i]->Message_0;
            let collected = variables::variables_arguments(variables)->Ok_0;
            translations::translated(
                bundle.settings(),
                bundle.entries(),
                message.id,
                variables,
            ) == Ok::<translations::TranslationView, translations::TranslationErrorView>(
                translations::translation(
                    collected.errors,
                    store::formatted(
                        bundle.settings().language,
                        bundle.entries(),
                        bundle.settings().isolating,
                        message.value->0,
                        collected.arguments,
                    ),
                ),
            )
        }),
{
    let id = file_entries(files[f])[i]->Message_0.id;
    law_last_definition_counts(files, strict, validate_references, f, i, id);
    bundle.lemma_names();
    law_identifiers_split(id, Seq::empty());
}

// Translation

/// The directionality marks of a translation are a matter of the call: what earlier calls asked
/// for makes no difference.
pub proof fn law_isolating_is_per_call(
    settings: store::SettingsView,
    entries: store::Entries,
    identifier: Seq<char>,
    variables: Seq<variables::Variable>,
    earlier: bool,
    use_isolating: bool,
)
    ensures
        ({
            let after = store::SettingsView { isolating: earlier, ..settings };
            translations::translated(
                store::SettingsView { isolating: use_isolating, ..after },
                entries,
                identifier,
                variables,
            ) == translations::translated(
                store::SettingsView { isolating: use_isolating, ..settings },
                entries,
                identifier,
                variables,
            )
        }),
{
}

/// Variables become arguments exactly where all keys are texts. Errors on them come up exactly
/// where messages do not take some value.
pub proof fn law_variables(variables: Seq<variables::Variable>)
    ensures
        variables::variables_arguments(variables) is Ok <==> forall|i: int|
            0 <= i < variables.len() ==> (#[trigger] variables[i]).key is Text,
        variables::variables_arguments(variables) matches Ok(collected) ==> (
        collected.errors.len() == 0 <==> forall|i: int|
            0 <= i < variables.len() ==> variables::value_argument(
                (#[trigger] variables[i]).value,
            ) is Some),
    decreases variables.len(),
{
    if variables.len() > 0 {
        let front = variables.drop_last();
        let last = variables.last();
        law_variables(front);
        assert(variables[variables.len() - 1] == last);
        assert forall|i: int| 0 <= i < front.len() implies front[i] == variables[i] by {}
        if forall|i: int| 0 <= i < front.len() ==> (#[trigger] front[i]).key is Text {
            assert forall|i: int| 0 <= i < front.len() implies (
            #[trigger] variables[i]).key is Text by {
                assert(front[i].key is Text);
            }
        } else {
            let i = choose|i: int| 0 <= i < front.len() && !((#[trigger] front[i]).key is Text);
            assert(!(variables[i].key is Text));
        }
        if forall|i: int|
            0 <= i < front.len() ==> variables::value_argument((#[trigger] front[i]).value) is Some {
            assert forall|i: int| 0 <= i < front.len() implies variables::value_argument(
                (#[trigger] variables[i]).value,
            ) is Some by {
                assert(variables::value_argument(front[i].value) is Some);
            }
        } else {
            let i = choose|i: int|
                0 <= i < front.len() && variables::value_argument(
                    (#[trigger] front[i]).value,
                ) is None;
            assert(variables::value_argument(variables[i].value) is None);
        }
    }
}

/// What variables become where the key of one stands in for its value.
proof fn lemma_stand_in(
    variables: Seq<variables::Variable>,
    i: int,
    stand_in: variables::Variable,
) -> (k: int)
    requires
        0 <= i < variables.len(),
        variables::variables_arguments(variables) is Ok,
        is_stand_in(variables[i], stand_in),
    ensures
        ({
            let given = variables::variables_arguments(variables)->Ok_0;
            let other = variables::variables_arguments(variables.update(i, stand_in));
            &&& other is Ok
            &&& other->Ok_0.arguments == given.arguments
            &&& 0 <= k <= other->Ok_0.errors.len()
            &&& given.errors == other->Ok_0.errors.insert(
                k,
                variables::unsupported_variable(variables[i].key->Text_0@),
            )
        }),
    decreases variables.len(),
{
    let front = variables.drop_last();
    let others = variables.update(i, stand_in);
    let error = variables::unsupported_variable(variables[i].key->Text_0@);
    let given = variables::variables_arguments(variables)->Ok_0;
    if i == front.len() {
        assert(others.drop_last() =~= front);
        let other = variables::variables_arguments(others)->Ok_0;
        assert(given.errors =~= other.errors.insert(other.errors.len() as int, error));
        other.errors.len() as int
    } else {
        let k = lemma_stand_in(front, i, stand_in);
        assert(others.drop_last() =~= front.update(i, stand_in));
        let other = variables::variables_arguments(others)->Ok_0;
        assert(given.errors =~= other.errors.insert(k, error));
        k
    }
}

/// Whether a variable has the key of another one, whose value messages do not take, for its value.
pub open spec fn is_stand_in(given: variables::Variable, stand_in: variables::Variable) -> bool {
    &&& given.key is Text
    &&& variables::value_argument(given.value) is None
    &&& stand_in.key == given.key
    &&& stand_in.value is Text
    &&& stand_in.value->Text_0@ == given.key->Text_0@
}

/// A value that messages do not take is replaced by its key: the text is that which comes out
/// where the key is given as a text, and there is exactly one error more.
pub proof fn law_keys_stand_in(
    settings: store::SettingsView,
    entries: store::Entries,
    identifier: Seq<char>,
    variables: Seq<variables::Variable>,
    i: int,
    stand_in: variables::Variable,
)
    requires
        0 <= i < variables.len(),
        is_stand_in(variables[i], stand_in),
        translations::translated(settings, entries, identifier, variables) is Ok,
    ensures
        ({
            let given = translations::translated(settings, entries, identifier, variables)->Ok_0;
            let other = translations::translated(
                settings,
                entries,
                identifier,
                variables.update(i, stand_in),
            );
            &&& other is Ok
            &&& other->Ok_0.text == given.text
            &&& exists|k: int|
                0 <= k <= other->Ok_0.errors.len() && given.errors
                    == #[trigger] other->Ok_0.errors.insert(
                    k,
                    variables::unsupported_variable(variables[i].key->Text_0@),
                )
        }),
{
    let k = lemma_stand_in(variables, i, stand_in);
    let error = variables::unsupported_variable(variables[i].key->Text_0@);
    let others = variables.update(i, stand_in);
    let given = translations::translated(settings, entries, identifier, variables)->Ok_0;
    let other = translations::translated(settings, entries, identifier, others)->Ok_0;
    assert(given.errors =~= other.errors.insert(k, error));
}

// Positions

/// Lines and columns count from one, and go on byte by byte: behind a line feed a new line starts,
/// behind any other byte the next column.
pub proof fn law_positions_advance(bytes: Seq<u8>, at: int)
    requires
        0 <= at < bytes.len(),
    ensures
        position::line_at(bytes, 0) == 1 && position::column_at(bytes, 0) == 1,
        bytes[at] == position::LINE_FEED ==> {
            &&& position::line_at(bytes, at + 1) == position::line_at(bytes, at) + 1
            &&& position::column_at(bytes, at + 1) == 1
        },
        bytes[at] != position::LINE_FEED ==> {
            &&& position::line_at(bytes, at + 1) == position::line_at(bytes, at)
            &&& position::column_at(bytes, at + 1) == position::column_at(bytes, at) + 1
        },
{
    reveal(Seq::filter);
    assert(bytes.take(at + 1).drop_last() =~= bytes.take(at));
    assert(bytes.take(0) =~= Seq::empty());
}

/// The line feed is encoded by its byte alone, and no other character by a byte of that value.
proof fn lemma_encoded_line_feed(c: char)
    ensures
        c == '\n' ==> vstd::utf8::encode_scalar(c as u32) == seq![position::LINE_FEED],
        c != '\n' ==> forall|i: int|
            0 <= i < vstd::utf8::encode_scalar(c as u32).len() ==> #[trigger] vstd::utf8::encode_scalar(
                c as u32,
            )[i] != position::LINE_FEED,
{
    let v = c as u32;
    vstd::utf8::char_is_scalar(c);
    if vstd::utf8::has_width_1_encoding(v) {
        assert((v & 0x7f) as u8 == v) by (bit_vector)
            requires
                v <= 0x7f,
        ;
    } else {
        assert(0xc0u8 | ((v >> 6) & 0x1f) as u8 >= 128) by (bit_vector);
        assert(0xe0u8 | ((v >> 12) & 0x0f) as u8 >= 128) by (bit_vector);
        assert(0xf0u8 | ((v >> 18) & 0x7) as u8 >= 128) by (bit_vector);
        assert(0x80u8 | (v & 0x3f) as u8 >= 128) by (bit_vector);
        assert(0x80u8 | ((v >> 6) & 0x3f) as u8 >= 128) by (bit_vector);
        assert(0x80u8 | ((v >> 12) & 0x3f) as u8 >= 128) by (bit_vector);
    }
}

/// Bytes without a line feed go on with the line.
proof fn lemma_line_goes_on(bytes: Seq<u8>, more: Seq<u8>)
    requires
        forall|i: int| 0 <= i < more.len() ==> #[trigger] more[i] != position::LINE_FEED,
    ensures
        position::line_feeds(bytes + more) == position::line_feeds(bytes),
        position::tail_length(bytes + more) == position::tail_length(bytes) + more.len(),
    decreases more.len(),
{
    if more.len() == 0 {
        assert(bytes + more =~= bytes);
    } else {
        reveal(Seq::filter);
        lemma_line_goes_on(bytes, more.drop_last());
        assert((bytes + more).drop_last() =~= bytes + more.drop_last());
        assert(more[more.len() - 1] == more.last());
    }
}

/// The encoding of two texts together is that of the one, then that of the other.
proof fn lemma_encode_concat(left: Seq<char>, right: Seq<char>)
    ensures
        vstd::utf8::encode_utf8(left + right) == vstd::utf8::encode_utf8(left)
            + vstd::utf8::encode_utf8(right),
    decreases left.len(),
{
    if left.len() == 0 {
        assert(left + right =~= right);
        assert(vstd::utf8::encode_utf8(left) + vstd::utf8::encode_utf8(right)
            =~= vstd::utf8::encode_utf8(right));
    } else {
        lemma_encode_concat(left.drop_first(), right);
        assert((left + right).drop_first() =~= left.drop_first() + right);
        assert(vstd::utf8::encode_utf8(left + right) =~= vstd::utf8::encode_utf8(left)
            + vstd::utf8::encode_utf8(right));
    }
}

/// The part of a text behind its last line feed, or all of it where there is none.
pub open spec fn last_line(text: Seq<char>) -> Seq<char>
    decreases text.len(),
{
    if text.len() == 0 || text.last() == '\n' {
        Seq::empty()
    } else {
        last_line(text.drop_last()).push(text.last())
    }
}

/// The lines and columns at the end of a text.
proof fn lemma_text_positions(text: Seq<char>)
    ensures
        position::line_feeds(vstd::utf8::encode_utf8(text)) == text.filter(
            |c: char| c == '\n',
        ).len(),
        position::tail_length(vstd::utf8::encode_utf8(text)) == vstd::utf8::encode_utf8(
            last_line(text),
        ).len(),
    decreases text.len(),
{
    reveal(Seq::filter);
    if text.len() > 0 {
        let front = text.drop_last();
        let c = text.last();
        let bytes = vstd::utf8::encode_utf8(front);
        let more = vstd::utf8::encode_scalar(c as u32);
        lemma_text_positions(front);
        lemma_encoded_line_feed(c);
        assert(vstd::utf8::encode_utf8(seq![c]) =~= more) by {
            reveal_with_fuel(vstd::utf8::encode_utf8, 2);
            assert(seq![c].drop_first() =~= Seq::empty());
        }
        lemma_encode_concat(front, seq![c]);
        assert(text =~= front + seq![c]);
        if c == '\n' {
            assert((bytes + more).drop_last() =~= bytes);
        } else {
            lemma_line_goes_on(bytes, more);
            lemma_encode_concat(last_line(front), seq![c]);
            assert(last_line(text) =~= last_line(front) + seq![c]);
        }
    }
}

/// Behind a part of a source text, the line is one more than the number of line feed characters in
/// that part, and the column one more than the number of bytes behind the last of them.
pub proof fn law_positions_count_characters(before: Seq<char>, after: Seq<char>)
    ensures
        ({
            let bytes = vstd::utf8::encode_utf8(before + after);
            let at = vstd::utf8::encode_utf8(before).len() as int;
            &&& position::line_at(bytes, at) == before.filter(|c: char| c == '\n').len() + 1
            &&& position::column_at(bytes, at) == vstd::utf8::encode_utf8(last_line(before)).len()
                + 1
        }),
{
    let bytes = vstd::utf8::encode_utf8(before + after);
    let at = vstd::utf8::encode_utf8(before).len() as int;
    lemma_encode_concat(before, after);
    lemma_text_positions(before);
    assert(bytes.take(at) =~= vstd::utf8::encode_utf8(before));
}

} // verus!
