//! Detection of cyclic references within a resource.

use crate::errors;
use crate::errors::ValidationError;
use crate::graph;
use crate::references;
use crate::references::Reference;
use crate::resource;
use crate::syntax;
use crate::text;
use fluent_bundle::FluentResource;
use fluent_syntax::ast;
use vstd::hash_map::StringHashMap;
use vstd::hash_set::StringHashSet;
use vstd::prelude::*;
use vstd::string::StringExecFns;

verus! {

/// The identifiers that references name, in order.
pub open spec fn targets(list: Seq<references::ReferenceView>) -> Seq<Seq<char>> {
    list.map_values(|r: references::ReferenceView| r.target())
}

/// The graph of the references among entries. Of several entries under one identifier, the last
/// one counts.
pub open spec fn reference_graph(entries: Seq<syntax::EntryView>) -> graph::Graph
    decreases entries.len(),
{
    if entries.len() == 0 {
        graph::Graph::empty()
    } else {
        let before = reference_graph(entries.drop_last());
        match references::entry_id(entries.last()) {
            Some(id) => before.insert(id, targets(references::entry_references(entries.last()))),
            None => before,
        }
    }
}

/// The identifiers of entries, each once, in the order in which they come up.
pub open spec fn defined_ids(entries: Seq<syntax::EntryView>) -> Seq<Seq<char>>
    decreases entries.len(),
{
    if entries.len() == 0 {
        Seq::empty()
    } else {
        let before = defined_ids(entries.drop_last());
        match references::entry_id(entries.last()) {
            Some(id) => if before.contains(id) {
                before
            } else {
                before.push(id)
            },
            None => before,
        }
    }
}

/// Whether following references from an identifier comes upon an identifier a second time.
pub open spec fn reaches_cycle(graph: graph::Graph, id: Seq<char>) -> bool {
    graph::has_trail(graph, Set::empty(), id)
}

/// The path from an identifier into a cycle that is reported: the one that takes, at each
/// identifier, the first of its references from which a cycle is reached.
pub open spec fn cycle_path(graph: graph::Graph, id: Seq<char>) -> Seq<Seq<char>> {
    choose|path: Seq<Seq<char>>|
        #[trigger] graph::is_first_trail(graph, Set::empty(), path) && path[0] == id
}

/// The error on an identifier from which a cycle is reached.
pub open spec fn cycle_error(graph: graph::Graph, id: Seq<char>) -> errors::ValidationErrorView {
    errors::ValidationErrorView {
        error_type: "CyclicReference"@,
        message: "Cyclic reference detected: "@ + text::joined(cycle_path(graph, id), " -> "@),
        message_id: Some(id),
        reference: None,
    }
}

/// The errors on those of a list of identifiers from which a cycle is reached, in order.
pub open spec fn cycle_errors(graph: graph::Graph, ids: Seq<Seq<char>>) -> Seq<
    errors::ValidationErrorView,
>
    decreases ids.len(),
{
    if ids.len() == 0 {
        Seq::empty()
    } else {
        let before = cycle_errors(graph, ids.drop_last());
        if reaches_cycle(graph, ids.last()) {
            before.push(cycle_error(graph, ids.last()))
        } else {
            before
        }
    }
}

/// The errors on the cycles among entries, one for each identifier from which one is reached.
pub open spec fn entries_cycle_errors(entries: Seq<syntax::EntryView>) -> Seq<
    errors::ValidationErrorView,
> {
    cycle_errors(reference_graph(entries), defined_ids(entries))
}

/// The graph holds exactly the identifiers of the entries, finitely many.
pub proof fn lemma_graph_domain(entries: Seq<syntax::EntryView>)
    ensures
        reference_graph(entries).dom() == defined_ids(entries).to_set(),
        reference_graph(entries).dom().finite(),
        defined_ids(entries).no_duplicates(),
    decreases entries.len(),
{
    let ids = defined_ids(entries);
    if entries.len() == 0 {
        assert(reference_graph(entries).dom() =~= ids.to_set());
    } else {
        lemma_graph_domain(entries.drop_last());
        let before = defined_ids(entries.drop_last());
        if let Some(id) = references::entry_id(entries.last()) {
            if before.contains(id) {
                assert(reference_graph(entries).dom() =~= before.to_set());
            } else {
                assert(ids =~= before.push(id));
                assert forall|x: Seq<char>| ids.contains(x) == (x == id || before.contains(x)) by {
                    if before.contains(x) {
                        assert(ids[before.index_of(x)] == x);
                    }
                    if x == id {
                        assert(ids[ids.len() - 1] == x);
                    }
                }
                assert(reference_graph(entries).dom() =~= ids.to_set());
            }
        }
    }
}

/// Adds the identifiers that references name to a list.
fn push_targets(list: &Vec<Reference>, refs: &mut Vec<String>)
    ensures
        text::texts(final(refs)@) == text::texts(old(refs)@) + targets(
            references::references_view(list@),
        ),
{
    let ghost before = text::texts(refs@);
    let ghost added = targets(references::references_view(list@));
    let mut i: usize = 0;
    assert(before + added.take(0) =~= before);
    while i < list.len()
        invariant
            i <= list.len(),
            added == targets(references::references_view(list@)),
            text::texts(refs@) == before + added.take(i as int),
        decreases list.len() - i,
    {
        let ghost sofar = text::texts(refs@);
        refs.push(list[i].target());
        assert(text::texts(refs@) =~= sofar.push(added[i as int]));
        assert(text::texts(refs@) =~= before + added.take(i + 1));
        i = i + 1;
    }
    assert(added.take(i as int) =~= added);
}

/// Collects the references of an expression.
pub fn collect_expression_references(expression: &ast::Expression<&str>, refs: &mut Vec<String>)
    ensures
        text::texts(final(refs)@) == text::texts(old(refs)@) + targets(
            references::expression_references(syntax::expression_view(*expression)),
        ),
{
    let mut list: Vec<Reference> = Vec::new();
    let ghost none = references::references_view(list@);
    references::list_expression(expression, &mut list);
    proof {
        let found = references::expression_references(syntax::expression_view(*expression));
        assert(none + found =~= found);
    }
    push_targets(&list, refs);
}

/// Collects the references of a pattern.
pub fn collect_references(pattern: &ast::Pattern<&str>, refs: &mut Vec<String>)
    ensures
        text::texts(final(refs)@) == text::texts(old(refs)@) + targets(
            references::pattern_references(Some(syntax::pattern_view(*pattern))),
        ),
{
    let ghost before = text::texts(refs@);
    let ghost views = syntax::elements_view(pattern.elements@);
    let mut i: usize = 0;
    assert(before =~= before + targets(references::elements_references(views.take(0))));
    while i < pattern.elements.len()
        invariant
            i <= pattern.elements.len(),
            views == syntax::elements_view(pattern.elements@),
            text::texts(refs@) == before + targets(
                references::elements_references(views.take(i as int)),
            ),
        decreases pattern.elements.len() - i,
    {
        if let ast::PatternElement::Placeable { expression } = &pattern.elements[i] {
            collect_expression_references(expression, refs);
        }
        proof {
            assert(views.take(i + 1).drop_last() =~= views.take(i as int));
            assert(text::texts(refs@) =~= before + targets(
                references::elements_references(views.take(i + 1)),
            ));
        }
        i = i + 1;
    }
    assert(views.take(i as int) =~= views);
}

/// Collects the references of attributes.
fn collect_attributes_references(
    attributes: &Vec<ast::Attribute<&str>>,
    refs: &mut Vec<String>,
)
    ensures
        text::texts(final(refs)@) == text::texts(old(refs)@) + targets(
            references::attributes_references(syntax::attributes_view(attributes@)),
        ),
{
    let ghost before = text::texts(refs@);
    let ghost views = syntax::attributes_view(attributes@);
    let mut i: usize = 0;
    assert(before =~= before + targets(references::attributes_references(views.take(0))));
    while i < attributes.len()
        invariant
            i <= attributes.len(),
            views == syntax::attributes_view(attributes@),
            text::texts(refs@) == before + targets(
                references::attributes_references(views.take(i as int)),
            ),
        decreases attributes.len() - i,
    {
        collect_references(&attributes[i].value, refs);
        proof {
            assert(views.take(i + 1).drop_last() =~= views.take(i as int));
            assert(text::texts(refs@) =~= before + targets(
                references::attributes_references(views.take(i + 1)),
            ));
        }
        i = i + 1;
    }
    assert(views.take(i as int) =~= views);
}

/// The identifier of a message or a term, and the identifiers that it refers to.
fn entry_edges(entry: &ast::Entry<&str>) -> (edges: Option<(String, Vec<String>)>)
    ensures
        match edges {
            Some((id, refs)) => {
                &&& references::entry_id(syntax::entry_view(*entry)) == Some(id@)
                &&& text::texts(refs@) == targets(
                    references::entry_references(syntax::entry_view(*entry)),
                )
            },
            None => references::entry_id(syntax::entry_view(*entry)) is None,
        },
{
    let mut refs: Vec<String> = Vec::new();
    let id = match entry {
        ast::Entry::Message(message) => {
            if let Some(value) = &message.value {
                collect_references(value, &mut refs);
            }
            collect_attributes_references(&message.attributes, &mut refs);
            message.id.name.to_owned()
        },
        ast::Entry::Term(term) => {
            collect_references(&term.value, &mut refs);
            collect_attributes_references(&term.attributes, &mut refs);
            references::term_id(term.id.name)
        },
        _ => {
            return None;
        },
    };
    assert(text::texts(refs@) =~= targets(
        references::entry_references(syntax::entry_view(*entry)),
    ));
    Some((id, refs))
}

/// Searches for a cycle from one identifier.
fn find_cycle(id: &String, message_refs: &StringHashMap<Vec<String>>) -> (error: Option<
    ValidationError,
>)
    requires
        message_refs@.dom().finite(),
    ensures
        match error {
            Some(error) => {
                &&& reaches_cycle(graph::graph_of(message_refs@), id@)
                &&& error@ == cycle_error(graph::graph_of(message_refs@), id@)
            },
            None => !reaches_cycle(graph::graph_of(message_refs@), id@),
        },
{
    let mut visited = StringHashSet::new();
    let mut path: Vec<String> = Vec::new();
    if graph::has_cycle(id.as_str(), message_refs, &mut visited, &mut path) {
        proof {
            let graph = graph::graph_of(message_refs@);
            let none = Seq::<String>::empty();
            let trail = choose|trail: Seq<Seq<char>>|
                {
                    &&& #[trigger] graph::is_first_trail(graph, Set::empty(), trail)
                    &&& trail[0] == id@
                    &&& text::texts(path@) == text::texts(none) + trail
                };
            assert(text::texts(path@) =~= trail);
            graph::lemma_first_trail_unique(graph, Set::empty(), trail, cycle_path(graph, id@));
        }
        let mut message = "Cyclic reference detected: ".to_owned();
        message.append(text::join(&path, " -> ").as_str());
        Some(
            ValidationError {
                error_type: "CyclicReference".to_owned(),
                message,
                message_id: Some(id.clone()),
                reference: None,
            },
        )
    } else {
        None
    }
}

/// Detects cyclic references among messages and terms.
pub fn detect_entry_cycles(entries: &Vec<&ast::Entry<&str>>) -> (errors: Vec<ValidationError>)
    ensures
        errors::validation_errors_view(errors@) == entries_cycle_errors(
            syntax::entries_view(entries@),
        ),
{
    let ghost views = syntax::entries_view(entries@);
    let mut message_refs: StringHashMap<Vec<String>> = StringHashMap::new();
    let mut ids: Vec<String> = Vec::new();
    let mut i: usize = 0;
    assert(graph::graph_of(message_refs@) =~= reference_graph(views.take(0)));
    assert(text::texts(ids@) =~= defined_ids(views.take(0)));
    while i < entries.len()
        invariant
            i <= entries.len(),
            views == syntax::entries_view(entries@),
            graph::graph_of(message_refs@) == reference_graph(views.take(i as int)),
            text::texts(ids@) == defined_ids(views.take(i as int)),
        decreases entries.len() - i,
    {
        proof {
            assert(views.take(i + 1).drop_last() =~= views.take(i as int));
            lemma_graph_domain(views.take(i as int));
        }
        let ghost before = message_refs@;
        let ghost ids_before = text::texts(ids@);
        if let Some((id, refs)) = entry_edges(entries[i]) {
            assert(graph::graph_of(before).contains_key(id@) == ids_before.contains(id@));
            if !message_refs.contains_key(id.as_str()) {
                ids.push(id.clone());
                assert(text::texts(ids@) =~= ids_before.push(id@));
            }
            message_refs.insert(id, refs);
            assert(graph::graph_of(message_refs@) =~= graph::graph_of(before).insert(
                id@,
                text::texts(refs@),
            ));
        }
        i = i + 1;
    }
    let ghost reference_graph = reference_graph(views);
    proof {
        assert(views.take(i as int) =~= views);
        lemma_graph_domain(views);
        assert(message_refs@.dom() =~= reference_graph.dom());
    }
    let mut errors: Vec<ValidationError> = Vec::new();
    let mut j: usize = 0;
    let ghost all = text::texts(ids@);
    assert(errors::validation_errors_view(errors@) =~= cycle_errors(reference_graph, all.take(0)));
    while j < ids.len()
        invariant
            j <= ids.len(),
            all == text::texts(ids@),
            reference_graph == graph::graph_of(message_refs@),
            message_refs@.dom().finite(),
            errors::validation_errors_view(errors@) == cycle_errors(
                reference_graph,
                all.take(j as int),
            ),
        decreases ids.len() - j,
    {
        let ghost before = errors::validation_errors_view(errors@);
        assert(all.take(j + 1).drop_last() =~= all.take(j as int));
        if let Some(error) = find_cycle(&ids[j], &message_refs) {
            errors.push(error);
            assert(errors::validation_errors_view(errors@) =~= before.push(error@));
        }
        j = j + 1;
    }
    assert(all.take(j as int) =~= all);
    errors
}

/// Detects cyclic references among the messages and terms of a resource.
pub fn detect_cycles(resource: &FluentResource) -> (errors: Vec<ValidationError>)
    ensures
        errors::validation_errors_view(errors@) == entries_cycle_errors(
            resource::resource_entries(*resource),
        ),
{
    detect_entry_cycles(&resource::entries_of(resource))
}

} // verus!
