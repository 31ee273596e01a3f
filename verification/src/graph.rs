//! Search for cycles in a graph of references.

use crate::text;
use vstd::hash_map::StringHashMap;
use vstd::hash_set::StringHashSet;
use vstd::prelude::*;

verus! {

/// A graph of references: for each identifier that is defined, the identifiers that it refers to,
/// in order. An identifier may be referred to without being defined.
pub type Graph = Map<Seq<char>, Seq<Seq<char>>>;

/// The graph that a map of owned identifiers stands for.
pub open spec fn graph_of(message_refs: Map<Seq<char>, Vec<String>>) -> Graph {
    message_refs.map_values(|refs: Vec<String>| text::texts(refs@))
}

/// Whether `from` is defined and refers to `to`.
pub open spec fn refers(graph: Graph, from: Seq<char>, to: Seq<char>) -> bool {
    graph.contains_key(from) && graph[from].contains(to)
}

/// Whether `trail` follows references until it comes upon an identifier that was visited before,
/// be it in `visited` or on the trail itself, and ends there.
pub open spec fn is_trail(graph: Graph, visited: Set<Seq<char>>, trail: Seq<Seq<char>>) -> bool
    decreases trail.len(),
{
    &&& trail.len() > 0
    &&& if visited.contains(trail[0]) {
        trail.len() == 1
    } else {
        &&& trail.len() > 1
        &&& refers(graph, trail[0], trail[1])
        &&& is_trail(graph, visited.insert(trail[0]), trail.drop_first())
    }
}

/// Whether a trail begins at an identifier.
pub open spec fn has_trail(graph: Graph, visited: Set<Seq<char>>, id: Seq<char>) -> bool {
    exists|trail: Seq<Seq<char>>| #[trigger] is_trail(graph, visited, trail) && trail[0] == id
}

/// Whether index `j` of a list lies before the first occurrence of `x`.
pub open spec fn stands_before(list: Seq<Seq<char>>, j: int, x: Seq<char>) -> bool {
    0 <= j < list.len() && forall|k: int| 0 <= k <= j ==> #[trigger] list[k] != x
}

/// Whether `trail` is the trail that takes, at each identifier, the first of its references from
/// which the search comes upon a visited identifier.
pub open spec fn is_first_trail(
    graph: Graph,
    visited: Set<Seq<char>>,
    trail: Seq<Seq<char>>,
) -> bool
    decreases trail.len(),
{
    &&& trail.len() > 0
    &&& if visited.contains(trail[0]) {
        trail.len() == 1
    } else {
        &&& trail.len() > 1
        &&& refers(graph, trail[0], trail[1])
        &&& forall|j: int| #[trigger]
            stands_before(graph[trail[0]], j, trail[1]) ==> !has_trail(
                graph,
                visited.insert(trail[0]),
                graph[trail[0]][j],
            )
        &&& is_first_trail(graph, visited.insert(trail[0]), trail.drop_first())
    }
}

/// The first trail is a trail.
pub proof fn lemma_first_trail_is_trail(
    graph: Graph,
    visited: Set<Seq<char>>,
    trail: Seq<Seq<char>>,
)
    requires
        is_first_trail(graph, visited, trail),
    ensures
        is_trail(graph, visited, trail),
    decreases trail.len(),
{
    if !visited.contains(trail[0]) {
        lemma_first_trail_is_trail(graph, visited.insert(trail[0]), trail.drop_first());
    }
}

/// What follows the first identifier of a trail is a trail, with that identifier visited.
pub proof fn lemma_trail_step(graph: Graph, visited: Set<Seq<char>>, trail: Seq<Seq<char>>)
    requires
        is_trail(graph, visited, trail),
        !visited.contains(trail[0]),
    ensures
        trail.len() > 1,
        refers(graph, trail[0], trail[1]),
        is_trail(graph, visited.insert(trail[0]), trail.drop_first()),
        has_trail(graph, visited.insert(trail[0]), trail[1]),
{
    assert(trail.drop_first()[0] == trail[1]);
    assert(is_trail(graph, visited.insert(trail[0]), trail.drop_first()));
}

/// A trail begins at an unvisited identifier exactly where one begins at one of its references.
pub proof fn lemma_has_trail_step(graph: Graph, visited: Set<Seq<char>>, id: Seq<char>)
    requires
        !visited.contains(id),
    ensures
        has_trail(graph, visited, id) == (graph.contains_key(id) && exists|j: int|
            0 <= j < graph[id].len() && has_trail(
                graph,
                visited.insert(id),
                #[trigger] graph[id][j],
            )),
{
    if has_trail(graph, visited, id) {
        let trail = choose|trail: Seq<Seq<char>>|
            #[trigger] is_trail(graph, visited, trail) && trail[0] == id;
        lemma_trail_step(graph, visited, trail);
        let j = choose|j: int| 0 <= j < graph[id].len() && graph[id][j] == trail[1];
        assert(has_trail(graph, visited.insert(id), graph[id][j]));
    }
    if graph.contains_key(id) && exists|j: int|
        0 <= j < graph[id].len() && has_trail(graph, visited.insert(id), #[trigger] graph[id][j]) {
        let j = choose|j: int|
            0 <= j < graph[id].len() && has_trail(
                graph,
                visited.insert(id),
                #[trigger] graph[id][j],
            );
        let rest = choose|rest: Seq<Seq<char>>|
            #[trigger] is_trail(graph, visited.insert(id), rest) && rest[0] == graph[id][j];
        let trail = seq![id] + rest;
        assert(trail.drop_first() =~= rest);
        assert(graph[id].contains(trail[1]));
        assert(is_trail(graph, visited, trail));
    }
}

/// Of two first trails with a common beginning, neither takes an earlier reference.
proof fn lemma_first_step(
    graph: Graph,
    visited: Set<Seq<char>>,
    left: Seq<Seq<char>>,
    right: Seq<Seq<char>>,
)
    requires
        is_first_trail(graph, visited, left),
        is_first_trail(graph, visited, right),
        left[0] == right[0],
        !visited.contains(left[0]),
    ensures
        !stands_before(graph[left[0]], first_index(graph[left[0]], left[1]), right[1]),
{
    let refs = graph[left[0]];
    let l = first_index(refs, left[1]);
    assert(exists|k: int| 0 <= k < refs.len() && refs[k] == left[1]);
    lemma_first_index(refs, left[1]);
    lemma_first_trail_is_trail(graph, visited, left);
    lemma_trail_step(graph, visited, left);
    assert(has_trail(graph, visited.insert(left[0]), refs[l]));
}

/// The first index at which an element occurs.
spec fn first_index(list: Seq<Seq<char>>, x: Seq<char>) -> int
    decreases list.len(),
{
    if list.len() == 0 {
        0
    } else if list.drop_last().contains(x) {
        first_index(list.drop_last(), x)
    } else {
        list.len() - 1
    }
}

proof fn lemma_first_index(list: Seq<Seq<char>>, x: Seq<char>)
    requires
        list.contains(x),
    ensures
        0 <= first_index(list, x) < list.len(),
        list[first_index(list, x)] == x,
        forall|k: int| 0 <= k < first_index(list, x) ==> list[k] != x,
    decreases list.len(),
{
    if list.drop_last().contains(x) {
        lemma_first_index(list.drop_last(), x);
        assert forall|k: int| 0 <= k < first_index(list, x) implies list[k] != x by {
            assert(list[k] == list.drop_last()[k]);
        }
    } else {
        let k = list.index_of(x);
        if k < list.len() - 1 {
            assert(list.drop_last()[k] == x);
        }
        assert forall|k: int| 0 <= k < first_index(list, x) implies list[k] != x by {
            assert(list[k] == list.drop_last()[k]);
        }
    }
}

/// No two first trails begin at the same identifier.
pub proof fn lemma_first_trail_unique(
    graph: Graph,
    visited: Set<Seq<char>>,
    left: Seq<Seq<char>>,
    right: Seq<Seq<char>>,
)
    requires
        is_first_trail(graph, visited, left),
        is_first_trail(graph, visited, right),
        left[0] == right[0],
    ensures
        left == right,
    decreases left.len(),
{
    let id = left[0];
    if visited.contains(id) {
        assert(left =~= right);
    } else {
        let refs = graph[id];
        lemma_first_step(graph, visited, left, right);
        lemma_first_step(graph, visited, right, left);
        lemma_first_index(refs, left[1]);
        lemma_first_index(refs, right[1]);
        let l = first_index(refs, left[1]);
        let r = first_index(refs, right[1]);
        assert(l == r);
        assert(left[1] == right[1]);
        assert(left.drop_first()[0] == right.drop_first()[0]);
        lemma_first_trail_unique(graph, visited.insert(id), left.drop_first(), right.drop_first());
        assert(left =~= seq![id] + left.drop_first());
        assert(right =~= seq![id] + right.drop_first());
    }
}

/// Follows references from `msg_id`, depth first, until an identifier comes up that was visited
/// before.
///
/// Where one comes up, the trail that led there is appended to `path`, and what it passed stays
/// in `visited`. Otherwise both are left as they were.
pub fn has_cycle(
    msg_id: &str,
    message_refs: &StringHashMap<Vec<String>>,
    visited: &mut StringHashSet,
    path: &mut Vec<String>,
) -> (found: bool)
    requires
        message_refs@.dom().finite(),
    ensures
        found == has_trail(graph_of(message_refs@), old(visited)@, msg_id@),
        found ==> exists|trail: Seq<Seq<char>>|
            {
                &&& #[trigger] is_first_trail(graph_of(message_refs@), old(visited)@, trail)
                &&& trail[0] == msg_id@
                &&& text::texts(final(path)@) == text::texts(old(path)@) + trail
                &&& final(visited)@ == old(visited)@.union(trail.drop_last().to_set())
            },
        !found ==> final(path)@ == old(path)@ && final(visited)@ == old(visited)@,
    decreases message_refs@.dom().difference(old(visited)@).len(),
{
    let ghost graph = graph_of(message_refs@);
    let ghost id = msg_id@;
    let ghost before = visited@;
    let ghost start = path@;
    if visited.contains(msg_id) {
        path.push(msg_id.to_owned());
        proof {
            let trail = seq![id];
            assert(is_first_trail(graph, before, trail));
            assert(is_trail(graph, before, trail));
            assert(text::texts(path@) =~= text::texts(start) + trail);
            assert(before =~= before.union(trail.drop_last().to_set()));
        }
        return true;
    }
    visited.insert(msg_id.to_owned());
    path.push(msg_id.to_owned());
    let ghost seen = visited@;
    let ghost here = path@;
    if let Some(refs) = message_refs.get(msg_id) {
        let mut i: usize = 0;
        assert(graph[id] == text::texts(refs@));
        proof {
            let rest = message_refs@.dom().difference(before);
            assert(message_refs@.dom().difference(seen) =~= rest.remove(id));
            assert(rest.contains(id));
        }
        while i < refs.len()
            invariant
                i <= refs.len(),
                id == msg_id@,
                graph == graph_of(message_refs@),
                graph.contains_key(id),
                graph[id] == text::texts(refs@),
                message_refs@.dom().finite(),
                message_refs@.dom().difference(seen).len() < message_refs@.dom().difference(
                    before,
                ).len(),
                before == old(visited)@,
                start == old(path)@,
                !before.contains(id),
                seen == before.insert(id),
                visited@ == seen,
                path@ == here,
                text::texts(here) == text::texts(start).push(id),
                forall|j: int| 0 <= j < i ==> !has_trail(graph, seen, #[trigger] graph[id][j]),
            decreases refs.len() - i,
        {
            if has_cycle(refs[i].as_str(), message_refs, visited, path) {
                proof {
                    let rest = choose|rest: Seq<Seq<char>>|
                        {
                            &&& #[trigger] is_first_trail(graph, seen, rest)
                            &&& rest[0] == graph[id][i as int]
                            &&& text::texts(path@) == text::texts(here) + rest
                            &&& visited@ == seen.union(rest.drop_last().to_set())
                        };
                    let trail = seq![id] + rest;
                    lemma_first_trail_extends(graph, before, id, i as int, rest);
                    lemma_first_trail_is_trail(graph, before, trail);
                    lemma_passed(before, id, rest);
                    assert(is_first_trail(graph, before, trail));
                    assert(is_trail(graph, before, trail));
                    assert(has_trail(graph, before, id)) by {
                        assert(trail[0] == id);
                    }
                    assert(text::texts(path@) =~= text::texts(start) + trail);
                    assert(visited@ == before.union(trail.drop_last().to_set()));
                }
                return true;
            }
            i = i + 1;
        }
    }
    proof {
        lemma_has_trail_step(graph, before, id);
        assert(here.drop_last() =~= start);
        assert(seen.remove(id) =~= before);
    }
    path.pop();
    visited.remove(msg_id);
    false
}

/// What a trail passes is what its first identifier and the rest of it pass.
proof fn lemma_passed(visited: Set<Seq<char>>, id: Seq<char>, rest: Seq<Seq<char>>)
    requires
        rest.len() > 0,
    ensures
        visited.insert(id).union(rest.drop_last().to_set()) == visited.union(
            (seq![id] + rest).drop_last().to_set(),
        ),
{
    let short = rest.drop_last();
    let long = (seq![id] + rest).drop_last();
    assert(long =~= seq![id] + short);
    assert forall|x: Seq<char>| long.contains(x) == (x == id || short.contains(x)) by {
        if short.contains(x) {
            assert(long[short.index_of(x) + 1] == x);
        }
        if x == id {
            assert(long[0] == x);
        }
        if long.contains(x) && x != id {
            assert(short[long.index_of(x) - 1] == x);
        }
    }
    assert(visited.insert(id).union(short.to_set()) =~= visited.union(long.to_set()));
}

/// A first trail that begins at the earliest reference of `id` from which one begins is carried on
/// backwards to `id`.
pub proof fn lemma_first_trail_extends(
    graph: Graph,
    visited: Set<Seq<char>>,
    id: Seq<char>,
    i: int,
    rest: Seq<Seq<char>>,
)
    requires
        !visited.contains(id),
        graph.contains_key(id),
        0 <= i < graph[id].len(),
        rest[0] == graph[id][i],
        is_first_trail(graph, visited.insert(id), rest),
        forall|j: int|
            0 <= j < i ==> !has_trail(graph, visited.insert(id), #[trigger] graph[id][j]),
    ensures
        is_first_trail(graph, visited, seq![id] + rest),
{
    let trail = seq![id] + rest;
    let refs = graph[id];
    assert(trail.drop_first() =~= rest);
    assert(refs.contains(trail[1]));
    assert forall|j: int| #[trigger] stands_before(refs, j, trail[1]) implies !has_trail(
        graph,
        visited.insert(id),
        refs[j],
    ) by {
        if i <= j {
            assert(refs[i] == trail[1]);
        }
    }
}

} // verus!
