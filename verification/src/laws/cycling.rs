//! Which cyclic references are reported, and with which paths.

use crate::cycles;
use crate::errors;
use crate::graph;
use crate::laws;
use crate::laws::collecting;
use crate::laws::finding;
use crate::references;
use crate::references::ReferenceView;
use crate::syntax;
use crate::text;
use vstd::prelude::*;

verus! {

// The search

/// Whether an identifier is defined and has another one among its references.
pub open spec fn has_step(graph: graph::Graph, from: Seq<char>, to: Seq<char>) -> bool {
    graph.contains_key(from) && exists|k: int|
        0 <= k < graph[from].len() && #[trigger] graph[from][k] == to
}

/// Whether each identifier of a list has the next one among its references.
pub open spec fn is_route(graph: graph::Graph, route: Seq<Seq<char>>) -> bool {
    &&& route.len() > 0
    &&& forall|i: int, j: int|
        #![trigger route[i], route[j]]
        0 <= i && j == i + 1 && j < route.len() ==> has_step(graph, route[i], route[j])
}

/// Whether a list comes upon an identifier that was visited, or upon one a second time.
pub open spec fn comes_back(visited: Set<Seq<char>>, route: Seq<Seq<char>>) -> bool {
    ||| exists|i: int| 0 <= i < route.len() && visited.contains(#[trigger] route[i])
    ||| exists|i: int, j: int|
        #![trigger route[i], route[j]]
        0 <= i < j < route.len() && route[i] == route[j]
}

/// Whether a list comes back at its end, and not before.
pub open spec fn closes(visited: Set<Seq<char>>, route: Seq<Seq<char>>) -> bool {
    &&& route.len() > 0
    &&& comes_back(visited, route)
    &&& !comes_back(visited, route.drop_last())
}

/// Whether `x` stands in a list before any `y` does.
pub open spec fn stands_earlier(list: Seq<Seq<char>>, x: Seq<char>, y: Seq<char>) -> bool {
    exists|j: int|
        0 <= j < list.len() && #[trigger] list[j] == x && forall|k: int|
            0 <= k <= j ==> #[trigger] list[k] != y
}

/// Routes are walks.
proof fn lemma_route_is_walk(graph: graph::Graph, route: Seq<Seq<char>>)
    ensures
        is_route(graph, route) == laws::is_walk(graph, route),
{
    assert forall|i: int, j: int|
        #![trigger route[i], route[j]]
        0 <= i && j == i + 1 && j < route.len() implies has_step(graph, route[i], route[j])
        == graph::refers(graph, route[i], route[j]) by {
        lemma_step(graph, route[i], route[j]);
    }
}

/// A step is a reference.
proof fn lemma_step(graph: graph::Graph, from: Seq<char>, to: Seq<char>)
    ensures
        has_step(graph, from, to) == graph::refers(graph, from, to),
{
    if has_step(graph, from, to) {
        let k = choose|k: int| 0 <= k < graph[from].len() && #[trigger] graph[from][k] == to;
        assert(graph[from].contains(to));
    }
    if graph::refers(graph, from, to) {
        let k = graph[from].index_of(to);
        assert(graph[from][k] == to);
    }
}

/// The search from an identifier finds something exactly where some way along references that
/// starts there comes upon an identifier that was visited, or upon one a second time.
pub proof fn law_search_finds_what_comes_back(
    graph: graph::Graph,
    visited: Set<Seq<char>>,
    id: Seq<char>,
)
    ensures
        graph::has_trail(graph, visited, id) <==> exists|route: Seq<Seq<char>>| #[trigger]
            is_route(graph, route) && route[0] == id && comes_back(visited, route),
{
    if graph::has_trail(graph, visited, id) {
        let trail = choose|trail: Seq<Seq<char>>| #[trigger]
            graph::is_trail(graph, visited, trail) && trail[0] == id;
        lemma_trail_closes(graph, visited, trail);
        assert(is_route(graph, trail) && comes_back(visited, trail));
    }
    if exists|route: Seq<Seq<char>>| #[trigger]
        is_route(graph, route) && route[0] == id && comes_back(visited, route) {
        let route = choose|route: Seq<Seq<char>>| #[trigger]
            is_route(graph, route) && route[0] == id && comes_back(visited, route);
        lemma_route_is_walk(graph, route);
        laws::lemma_walk_gives_trail(graph, visited, route);
    }
}

/// A trail is a way along references that comes back at its end, and not before.
proof fn lemma_trail_closes(
    graph: graph::Graph,
    visited: Set<Seq<char>>,
    trail: Seq<Seq<char>>,
)
    requires
        graph::is_trail(graph, visited, trail),
    ensures
        is_route(graph, trail),
        closes(visited, trail),
{
    laws::lemma_trail_shape(graph, visited, trail);
    lemma_route_is_walk(graph, trail);
    let n = trail.len() - 1;
    let front = trail.drop_last();
    if visited.contains(trail.last()) {
        assert(visited.contains(trail[n]));
    } else {
        let k = front.index_of(trail.last());
        assert(trail[k] == trail[n]);
    }
    assert(comes_back(visited, trail));
    if exists|i: int| 0 <= i < front.len() && visited.contains(#[trigger] front[i]) {
        let i = choose|i: int| 0 <= i < front.len() && visited.contains(#[trigger] front[i]);
        assert(!visited.contains(trail[i]));
    }
}

/// A way along references that comes back at its end, and not before, is a trail.
proof fn lemma_closed_is_trail(
    graph: graph::Graph,
    visited: Set<Seq<char>>,
    route: Seq<Seq<char>>,
)
    requires
        is_route(graph, route),
        closes(visited, route),
    ensures
        graph::is_trail(graph, visited, route),
    decreases route.len(),
{
    let front = route.drop_last();
    if visited.contains(route[0]) {
        if route.len() > 1 {
            assert(visited.contains(front[0]));
        }
    } else {
        if route.len() == 1 {
            assert(!comes_back(visited, route));
        }
        lemma_route_is_walk(graph, route);
        assert(graph::refers(graph, route[0], route[1]));
        let rest = route.drop_first();
        let seen = visited.insert(route[0]);
        assert forall|i: int, j: int|
            #![trigger rest[i], rest[j]]
            0 <= i && j == i + 1 && j < rest.len() implies graph::refers(
            graph,
            rest[i],
            rest[j],
        ) by {
            assert(rest[i] == route[i + 1] && rest[j] == route[j + 1]);
        }
        assert(laws::is_walk(graph, rest));
        lemma_route_is_walk(graph, rest);
        if exists|i: int| 0 <= i < route.len() && visited.contains(#[trigger] route[i]) {
            let i = choose|i: int| 0 <= i < route.len() && visited.contains(#[trigger] route[i]);
            assert(seen.contains(rest[i - 1]));
        } else {
            let (i, j) = choose|i: int, j: int|
                #![trigger route[i], route[j]]
                0 <= i < j < route.len() && route[i] == route[j];
            assert(rest[j - 1] == route[j]);
            if i == 0 {
                assert(seen.contains(rest[j - 1]));
            } else {
                assert(rest[i - 1] == route[i]);
            }
        }
        assert(comes_back(seen, rest));
        let rest_front = rest.drop_last();
        if comes_back(seen, rest_front) {
            if exists|i: int| 0 <= i < rest_front.len() && seen.contains(#[trigger] rest_front[i]) {
                let i = choose|i: int|
                    0 <= i < rest_front.len() && seen.contains(#[trigger] rest_front[i]);
                assert(rest_front[i] == front[i + 1]);
                if rest_front[i] == route[0] {
                    assert(front[0] == front[i + 1]);
                } else {
                    assert(visited.contains(front[i + 1]));
                }
            } else {
                let (i, j) = choose|i: int, j: int|
                    #![trigger rest_front[i], rest_front[j]]
                    0 <= i < j < rest_front.len() && rest_front[i] == rest_front[j];
                assert(front[i + 1] == front[j + 1]);
            }
        }
        lemma_closed_is_trail(graph, seen, rest);
    }
}

/// The way that the search reports follows references, comes back at its end, and not before. Of
/// all such ways from the same identifier it is the first: where another one parts with it, the
/// other takes a later reference.
pub proof fn law_search_reports_the_first_way(
    graph: graph::Graph,
    visited: Set<Seq<char>>,
    trail: Seq<Seq<char>>,
    other: Seq<Seq<char>>,
    m: int,
)
    requires
        graph::is_first_trail(graph, visited, trail),
    ensures
        is_route(graph, trail),
        closes(visited, trail),
        is_route(graph, other) && closes(visited, other) && 0 <= m < trail.len() && m < other.len()
            && trail.take(m + 1) == other.take(m + 1) && trail != other ==> {
            &&& m + 1 < trail.len()
            &&& m + 1 < other.len()
            &&& trail[m + 1] == other[m + 1] || stands_earlier(
                graph[trail[m]],
                trail[m + 1],
                other[m + 1],
            )
        },
{
    graph::lemma_first_trail_is_trail(graph, visited, trail);
    lemma_trail_closes(graph, visited, trail);
    if is_route(graph, other) && closes(visited, other) && 0 <= m < trail.len() && m < other.len()
        && trail.take(m + 1) == other.take(m + 1) && trail != other {
        lemma_closed_is_trail(graph, visited, other);
        lemma_parting(graph, visited, trail, other, m);
    }
}

/// Where another trail parts with the first one, it takes a later reference.
proof fn lemma_parting(
    graph: graph::Graph,
    visited: Set<Seq<char>>,
    trail: Seq<Seq<char>>,
    other: Seq<Seq<char>>,
    m: int,
)
    requires
        graph::is_first_trail(graph, visited, trail),
        graph::is_trail(graph, visited, other),
        0 <= m < trail.len(),
        m < other.len(),
        trail.take(m + 1) == other.take(m + 1),
        trail != other,
    ensures
        m + 1 < trail.len(),
        m + 1 < other.len(),
        trail[m + 1] == other[m + 1] || stands_earlier(
            graph[trail[m]],
            trail[m + 1],
            other[m + 1],
        ),
    decreases m,
{
    assert(trail.take(m + 1)[0] == other.take(m + 1)[0]);
    let id = trail[0];
    if visited.contains(id) {
        assert(trail =~= other);
    } else if m == 0 {
        let refs = graph[id];
        graph::lemma_trail_step(graph, visited, other);
        if trail[1] != other[1] {
            let j = lemma_earliest_occurrence(refs, trail[1]);
            assert forall|k: int| 0 <= k <= j implies #[trigger] refs[k] != other[1] by {
                if refs[k] == other[1] {
                    assert(k < j);
                    assert(graph::stands_before(refs, k, trail[1]));
                    assert(graph::has_trail(graph, visited.insert(id), other[1]));
                }
            }
            assert(refs[j] == trail[1]);
        }
    } else {
        let rest = trail.drop_first();
        let others = other.drop_first();
        assert(trail.take(m + 1)[1] == other.take(m + 1)[1]);
        assert forall|k: int| 0 <= k < m implies rest.take(m)[k] == others.take(m)[k] by {
            assert(trail.take(m + 1)[k + 1] == other.take(m + 1)[k + 1]);
        }
        assert(rest.take(m) =~= others.take(m));
        if rest == others {
            assert(trail =~= seq![id] + rest);
            assert(other =~= seq![id] + others);
        }
        lemma_parting(graph, visited.insert(id), rest, others, m - 1);
        assert(rest[m - 1] == trail[m]);
        assert(rest[m] == trail[m + 1]);
        assert(others[m] == other[m + 1]);
    }
}

/// The earliest place of a list at which something stands.
proof fn lemma_earliest_occurrence(list: Seq<Seq<char>>, x: Seq<char>) -> (j: int)
    requires
        list.contains(x),
    ensures
        0 <= j < list.len(),
        list[j] == x,
        forall|k: int| 0 <= k < j ==> #[trigger] list[k] != x,
    decreases list.len(),
{
    if list[0] == x {
        0
    } else {
        let rest = list.drop_first();
        let i = list.index_of(x);
        assert(rest[i - 1] == x);
        let j = lemma_earliest_occurrence(rest, x);
        assert(list[j + 1] == rest[j]);
        assert forall|k: int| 0 <= k < j + 1 implies #[trigger] list[k] != x by {
            if k > 0 {
                assert(list[k] == rest[k - 1]);
            }
        }
        j + 1
    }
}

// The graph of a file

/// Whether the entry at an index is the last of a file to go by a name.
pub open spec fn is_last_by(entries: Seq<syntax::EntryView>, i: int, name: Seq<char>) -> bool {
    &&& 0 <= i < entries.len()
    &&& finding::goes_by(entries[i], name)
    &&& forall|k: int|
        i < k < entries.len() ==> !finding::goes_by(#[trigger] entries[k], name)
}

/// Whether a reference leads to a name: one to a message, or to an attribute of it, to the name of
/// the message, and one to a term to the name of the term with a hyphen in front.
pub open spec fn leads_to(reference: ReferenceView, name: Seq<char>) -> bool {
    match reference {
        ReferenceView::Message { id, .. } => name == id,
        ReferenceView::Term { id, .. } => name == seq!['-'] + id,
    }
}

/// Names are defined in the graph of a file exactly where an entry goes by them. From each name
/// leads one step for each reference of the last entry that goes by it, in order.
pub proof fn law_graph_of_a_file(entries: Seq<syntax::EntryView>, name: Seq<char>)
    ensures
        cycles::reference_graph(entries).contains_key(name) <==> exists|i: int|
            0 <= i < entries.len() && finding::goes_by(#[trigger] entries[i], name),
        forall|i: int| #[trigger]
            is_last_by(entries, i, name) ==> {
                let steps = cycles::reference_graph(entries)[name];
                let held = references::entry_references(entries[i]);
                steps.len() == held.len() && forall|k: int|
                    0 <= k < held.len() ==> leads_to(#[trigger] held[k], steps[k])
            },
    decreases entries.len(),
{
    finding::lemma_hyphen();
    if entries.len() > 0 {
        let n = entries.len() - 1;
        let front = entries.drop_last();
        law_graph_of_a_file(front, name);
        let last = entries[n];
        assert(finding::goes_by(last, name) == (references::entry_id(last) == Some(name)));
        if exists|i: int| 0 <= i < front.len() && finding::goes_by(#[trigger] front[i], name) {
            let i = choose|i: int|
                0 <= i < front.len() && finding::goes_by(#[trigger] front[i], name);
            assert(finding::goes_by(entries[i], name));
        }
        if exists|i: int| 0 <= i < entries.len() && finding::goes_by(#[trigger] entries[i], name) {
            let i = choose|i: int|
                0 <= i < entries.len() && finding::goes_by(#[trigger] entries[i], name);
            if i < n {
                assert(finding::goes_by(front[i], name));
            }
        }
        assert forall|i: int| #[trigger] is_last_by(entries, i, name) implies {
            let steps = cycles::reference_graph(entries)[name];
            let held = references::entry_references(entries[i]);
            steps.len() == held.len() && forall|k: int|
                0 <= k < held.len() ==> leads_to(#[trigger] held[k], steps[k])
        } by {
            if i < n {
                assert(!finding::goes_by(entries[n], name));
                assert forall|k: int| i < k < front.len() implies !finding::goes_by(
                    #[trigger] front[k],
                    name,
                ) by {
                    assert(!finding::goes_by(entries[k], name));
                }
                assert(is_last_by(front, i, name));
            }
        }
    }
}

/// Whether a file leads from one name to another: the last entry that goes by the one mentions, at
/// whichever depth, a reference that leads to the other.
pub open spec fn file_leads(
    entries: Seq<syntax::EntryView>,
    from: Seq<char>,
    to: Seq<char>,
) -> bool {
    exists|i: int, reference: ReferenceView|
        is_last_by(entries, i, from) && #[trigger] collecting::entry_mentions(
            entries[i],
            reference,
        ) && leads_to(reference, to)
}

/// Some entry goes by a name exactly where one is the last to do so.
proof fn lemma_last_by(entries: Seq<syntax::EntryView>, name: Seq<char>) -> (i: int)
    requires
        exists|i: int| 0 <= i < entries.len() && finding::goes_by(#[trigger] entries[i], name),
    ensures
        is_last_by(entries, i, name),
    decreases entries.len(),
{
    let n = entries.len() - 1;
    if finding::goes_by(entries[n], name) {
        assert(is_last_by(entries, n, name));
        n
    } else {
        let front = entries.drop_last();
        let j = choose|i: int|
            0 <= i < entries.len() && finding::goes_by(#[trigger] entries[i], name);
        assert(finding::goes_by(front[j], name));
        let i = lemma_last_by(front, name);
        assert forall|k: int| i < k < entries.len() implies !finding::goes_by(
            #[trigger] entries[k],
            name,
        ) by {
            if k < n {
                assert(entries[k] == front[k]);
            }
        }
        i
    }
}

/// The graph of a file has a step from one name to another exactly where the file leads there.
pub proof fn law_steps_are_mentions(
    entries: Seq<syntax::EntryView>,
    from: Seq<char>,
    to: Seq<char>,
)
    ensures
        graph::refers(cycles::reference_graph(entries), from, to) <==> file_leads(
            entries,
            from,
            to,
        ),
{
    let graph = cycles::reference_graph(entries);
    law_graph_of_a_file(entries, from);
    if graph::refers(graph, from, to) {
        let i = lemma_last_by(entries, from);
        let held = references::entry_references(entries[i]);
        let k = graph[from].index_of(to);
        assert(leads_to(held[k], graph[from][k]));
        assert(held.contains(held[k]));
        collecting::law_mentions_are_collected(entries[i], held[k]);
        assert(collecting::entry_mentions(entries[i], held[k]));
    }
    if file_leads(entries, from, to) {
        let (i, reference) = choose|i: int, reference: ReferenceView|
            is_last_by(entries, i, from) && #[trigger] collecting::entry_mentions(
                entries[i],
                reference,
            ) && leads_to(reference, to);
        collecting::law_mentions_are_collected(entries[i], reference);
        let held = references::entry_references(entries[i]);
        let k = held.index_of(reference);
        assert(leads_to(held[k], graph[from][k]));
        assert(graph[from][k] == to);
        assert(finding::goes_by(entries[i], from));
    }
}

// The report

/// Whether a file leads from each name of a list to the next one.
pub open spec fn is_round(entries: Seq<syntax::EntryView>, round: Seq<Seq<char>>) -> bool {
    &&& round.len() > 0
    &&& forall|i: int, j: int|
        #![trigger round[i], round[j]]
        0 <= i && j == i + 1 && j < round.len() ==> file_leads(entries, round[i], round[j])
}

/// Ways that a file leads are walks in its graph.
proof fn lemma_round_is_walk(entries: Seq<syntax::EntryView>, round: Seq<Seq<char>>)
    ensures
        is_round(entries, round) == laws::is_walk(cycles::reference_graph(entries), round),
{
    let graph = cycles::reference_graph(entries);
    assert forall|i: int, j: int|
        #![trigger round[i], round[j]]
        0 <= i && j == i + 1 && j < round.len() implies graph::refers(graph, round[i], round[j])
        == file_leads(entries, round[i], round[j]) by {
        law_steps_are_mentions(entries, round[i], round[j]);
    }
}

/// Whether an error says that a way of references comes back.
pub open spec fn reports_round(
    error: errors::ValidationErrorView,
    round: Seq<Seq<char>>,
) -> bool {
    &&& error.error_type == "CyclicReference"@
    &&& error.message == "Cyclic reference detected: "@ + text::joined(round, " -> "@)
    &&& error.message_id == Some(round[0])
    &&& error.reference is None
}

/// Wherever a file leads from a name to a name for the second time, an error is reported on the
/// name at which the way starts.
pub proof fn law_every_cycle_is_reported(
    entries: Seq<syntax::EntryView>,
    round: Seq<Seq<char>>,
)
    requires
        is_round(entries, round),
        comes_back(Set::empty(), round),
    ensures
        exists|k: int|
            0 <= k < cycles::entries_cycle_errors(entries).len() && (
            #[trigger] cycles::entries_cycle_errors(entries)[k]).error_type == "CyclicReference"@
                && cycles::entries_cycle_errors(entries)[k].message_id == Some(round[0]),
{
    let graph = cycles::reference_graph(entries);
    let id = round[0];
    lemma_round_is_walk(entries, round);
    lemma_route_is_walk(graph, round);
    law_search_finds_what_comes_back(graph, Set::empty(), id);
    assert(is_route(graph, round));
    assert(cycles::reaches_cycle(graph, id));
    laws::law_cycle_errors_are_exact(entries);
    let (i, j) = choose|i: int, j: int|
        #![trigger round[i], round[j]]
        0 <= i < j < round.len() && round[i] == round[j];
    assert(graph::refers(graph, round[0], round[1]));
    cycles::lemma_graph_domain(entries);
    laws::lemma_defined_ids(entries, id);
    let found = cycles::entries_cycle_errors(entries);
    let k = found.index_of(cycles::cycle_error(graph, id));
    assert(found[k].message_id == Some(id));
}

/// Whether an error tells a way that a file leads, which comes back at its end and not before.
pub open spec fn tells_a_round(
    entries: Seq<syntax::EntryView>,
    error: errors::ValidationErrorView,
) -> bool {
    exists|round: Seq<Seq<char>>| #[trigger]
        reports_round(error, round) && is_round(entries, round) && closes(Set::empty(), round)
}

/// Each error on a cycle tells a way that the file leads: it starts at the name that the error is
/// on, follows references, and comes back at its end, not before. No two errors are on one name.
pub proof fn law_reported_cycles_are_there(entries: Seq<syntax::EntryView>)
    ensures
        forall|k: int|
            0 <= k < cycles::entries_cycle_errors(entries).len() ==> tells_a_round(
                entries,
                #[trigger] cycles::entries_cycle_errors(entries)[k],
            ),
        forall|j: int, k: int|
            0 <= j < k < cycles::entries_cycle_errors(entries).len() ==> (
            #[trigger] cycles::entries_cycle_errors(entries)[j]).message_id != (
            #[trigger] cycles::entries_cycle_errors(entries)[k]).message_id,
{
    let graph = cycles::reference_graph(entries);
    let found = cycles::entries_cycle_errors(entries);
    laws::law_cycle_errors_are_exact(entries);
    assert forall|k: int| 0 <= k < found.len() implies tells_a_round(
        entries,
        #[trigger] found[k],
    ) by {
        let id = found[k].message_id->0;
        let round = lemma_reported_path(entries, id);
        assert(reports_round(found[k], round));
    }
}

/// The path that is reported for a name.
proof fn lemma_reported_path(entries: Seq<syntax::EntryView>, id: Seq<char>) -> (round: Seq<
    Seq<char>,
>)
    requires
        cycles::reaches_cycle(cycles::reference_graph(entries), id),
    ensures
        reports_round(cycles::cycle_error(cycles::reference_graph(entries), id), round),
        round[0] == id,
        graph::is_first_trail(cycles::reference_graph(entries), Set::empty(), round),
        is_round(entries, round),
        closes(Set::empty(), round),
{
    let graph = cycles::reference_graph(entries);
    cycles::lemma_graph_domain(entries);
    laws::lemma_first_trail_exists(graph, Set::empty(), id);
    let round = cycles::cycle_path(graph, id);
    graph::lemma_first_trail_is_trail(graph, Set::empty(), round);
    lemma_trail_closes(graph, Set::empty(), round);
    lemma_route_is_walk(graph, round);
    lemma_round_is_walk(entries, round);
    round
}

/// The way that an error tells is the first of its kind: where another way from the same name parts
/// with it, at the entry of some name, the other takes a later reference of that entry.
pub proof fn law_reported_cycles_come_first(
    entries: Seq<syntax::EntryView>,
    k: int,
    other: Seq<Seq<char>>,
) -> (round: Seq<Seq<char>>)
    requires
        0 <= k < cycles::entries_cycle_errors(entries).len(),
        is_round(entries, other),
        closes(Set::empty(), other),
        cycles::entries_cycle_errors(entries)[k].message_id == Some(other[0]),
    ensures
        reports_round(cycles::entries_cycle_errors(entries)[k], round),
        round == other || exists|m: int| {
            &&& 0 <= m
            &&& m + 1 < round.len()
            &&& m + 1 < other.len()
            &&& #[trigger] round.take(m + 1) == other.take(m + 1)
            &&& round[m + 1] != other[m + 1]
            &&& stands_earlier(
                cycles::reference_graph(entries)[round[m]],
                round[m + 1],
                other[m + 1],
            )
        },
{
    let graph = cycles::reference_graph(entries);
    laws::law_cycle_errors_are_exact(entries);
    let id = other[0];
    let round = lemma_reported_path(entries, id);
    assert(cycles::entries_cycle_errors(entries)[k].message_id == Some(id));
    if round != other {
        lemma_round_is_walk(entries, other);
        lemma_route_is_walk(graph, other);
        assert(round.take(1) =~= other.take(1));
        lemma_parting_place(graph, round, other, 0);
    }
    round
}

/// Two ways from the same identifier, one of them the first, part somewhere.
proof fn lemma_parting_place(
    graph: graph::Graph,
    trail: Seq<Seq<char>>,
    other: Seq<Seq<char>>,
    m: int,
)
    requires
        graph::is_first_trail(graph, Set::empty(), trail),
        is_route(graph, other),
        closes(Set::empty(), other),
        trail != other,
        0 <= m < trail.len(),
        m < other.len(),
        trail.take(m + 1) == other.take(m + 1),
    ensures
        exists|m: int| {
            &&& 0 <= m
            &&& m + 1 < trail.len()
            &&& m + 1 < other.len()
            &&& #[trigger] trail.take(m + 1) == other.take(m + 1)
            &&& trail[m + 1] != other[m + 1]
            &&& stands_earlier(graph[trail[m]], trail[m + 1], other[m + 1])
        },
    decreases trail.len() - m,
{
    law_search_reports_the_first_way(graph, Set::empty(), trail, other, m);
    if trail[m + 1] == other[m + 1] {
        assert(trail.take(m + 2) =~= trail.take(m + 1).push(trail[m + 1]));
        assert(other.take(m + 2) =~= other.take(m + 1).push(other[m + 1]));
        lemma_parting_place(graph, trail, other, m + 1);
    }
}

/// The names of the errors on cycles come in the order in which the file first goes by them.
pub proof fn law_reported_cycles_come_in_order(
    entries: Seq<syntax::EntryView>,
    j: int,
    k: int,
    b: int,
)
    requires
        0 <= j < k < cycles::entries_cycle_errors(entries).len(),
        0 <= b < entries.len(),
        cycles::entries_cycle_errors(entries)[k].message_id matches Some(name) && finding::goes_by(
            entries[b],
            name,
        ),
    ensures
        exists|a: int|
            0 <= a < b && (cycles::entries_cycle_errors(entries)[j].message_id matches Some(name)
                && finding::goes_by(#[trigger] entries[a], name)),
{
    let graph = cycles::reference_graph(entries);
    let ids = cycles::defined_ids(entries);
    let found = cycles::entries_cycle_errors(entries);
    cycles::lemma_graph_domain(entries);
    let (x, y) = lemma_errors_in_order(graph, ids, j, k);
    let a = lemma_ids_in_order(entries, x, y, b);
    assert(finding::goes_by(entries[a], ids[x]));
}

/// The errors on a list of identifiers come in the order of the list.
proof fn lemma_errors_in_order(graph: graph::Graph, ids: Seq<Seq<char>>, j: int, k: int) -> (at: (
    int,
    int,
))
    requires
        0 <= j < k < cycles::cycle_errors(graph, ids).len(),
    ensures
        0 <= at.0 < at.1 < ids.len(),
        cycles::cycle_errors(graph, ids)[j].message_id == Some(ids[at.0]),
        cycles::cycle_errors(graph, ids)[k].message_id == Some(ids[at.1]),
    decreases ids.len(),
{
    let front = ids.drop_last();
    let before = cycles::cycle_errors(graph, front);
    if k < before.len() {
        lemma_errors_in_order(graph, front, j, k)
    } else {
        let x = lemma_error_at(graph, front, j);
        (x, ids.len() - 1)
    }
}

/// Where the identifier of an error stands.
proof fn lemma_error_at(graph: graph::Graph, ids: Seq<Seq<char>>, j: int) -> (x: int)
    requires
        0 <= j < cycles::cycle_errors(graph, ids).len(),
    ensures
        0 <= x < ids.len(),
        cycles::cycle_errors(graph, ids)[j].message_id == Some(ids[x]),
    decreases ids.len(),
{
    let front = ids.drop_last();
    if j < cycles::cycle_errors(graph, front).len() {
        lemma_error_at(graph, front, j)
    } else {
        ids.len() - 1
    }
}

/// Before any entry of an identifier stands one of each identifier that comes earlier in the list.
proof fn lemma_ids_in_order(entries: Seq<syntax::EntryView>, x: int, y: int, b: int) -> (a: int)
    requires
        0 <= x < y < cycles::defined_ids(entries).len(),
        0 <= b < entries.len(),
        references::entry_id(entries[b]) == Some(cycles::defined_ids(entries)[y])
            || finding::goes_by(entries[b], cycles::defined_ids(entries)[y]),
    ensures
        0 <= a < b,
        finding::goes_by(entries[a], cycles::defined_ids(entries)[x]),
    decreases entries.len(),
{
    finding::lemma_hyphen();
    let front = entries.drop_last();
    let n = entries.len() - 1;
    let before = cycles::defined_ids(front);
    let ids = cycles::defined_ids(entries);
    assert(references::entry_id(entries[b]) == Some(ids[y]));
    if y < before.len() {
        if b < n {
            assert(front[b] == entries[b]);
            lemma_ids_in_order(front, x, y, b)
        } else {
            assert(before[y] == ids[y]);
            assert(before.contains(ids[y]));
            laws::lemma_defined_ids(front, ids[y]);
            let c = choose|c: int|
                0 <= c < front.len() && references::entry_id(#[trigger] front[c]) == Some(ids[y]);
            lemma_ids_in_order(front, x, y, c)
        }
    } else {
        if b < n {
            assert(references::entry_id(front[b]) == Some(ids[y]));
            laws::lemma_defined_ids(front, ids[y]);
            assert(before.contains(ids[y]));
            assert(false);
        }
        assert(before[x] == ids[x]);
        assert(before.contains(ids[x]));
        laws::lemma_defined_ids(front, ids[x]);
        let a = choose|a: int|
            0 <= a < front.len() && references::entry_id(#[trigger] front[a]) == Some(ids[x]);
        assert(finding::goes_by(entries[a], ids[x]));
        a
    }
}

} // verus!
