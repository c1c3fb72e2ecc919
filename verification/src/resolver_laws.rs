//! What holds of the order that the dependency resolver gives: every
//! selected table stands in it once, and where the dependencies among the
//! selected tables run in no circle, every table stands behind the tables it
//! depends on.

use crate::resolver::{
    all_below, dependency_order, graph_in_range, graph_of, id_before, insert_position,
    insert_sorted, lemma_distinct_places_are_few, parent_ids, position_of, positions_in,
    sorted_nodes, visit_each, visit_order, visit_roots, TableId,
};
use crate::schema::TableDependency;
use crate::text::text_before;
use vstd::prelude::*;

verus! {

// ---------------------------------------------------------------------------
// The statements
// ---------------------------------------------------------------------------
/// The selected table `child` depends on the selected table `parent`: some
/// entry of `child` lists `parent`, which is another table.
pub open spec fn depends_on(
    ids: Seq<TableId>,
    deps: Seq<TableDependency>,
    child: TableId,
    parent: TableId,
) -> bool {
    &&& child != parent
    &&& ids.contains(child)
    &&& ids.contains(parent)
    &&& parent_ids(deps, child).contains(parent)
}

/// Each table of `circle` depends on the next, and the last on the first.
pub open spec fn is_circle(ids: Seq<TableId>, deps: Seq<TableDependency>, circle: Seq<TableId>) -> bool {
    &&& circle.len() >= 1
    &&& forall|i: int|
        0 <= i < circle.len() - 1 ==> depends_on(ids, deps, #[trigger] circle[i], circle[i + 1])
    &&& depends_on(ids, deps, circle.last(), circle[0])
}

/// The dependencies among the selected tables run in no circle.
pub open spec fn acyclic(ids: Seq<TableId>, deps: Seq<TableDependency>) -> bool {
    forall|circle: Seq<TableId>| !#[trigger] is_circle(ids, deps, circle)
}

/// Every selected table stands in the order, no other table does, and none
/// stands in it twice.
pub proof fn lemma_each_table_once(ids: Seq<TableId>, deps: Seq<TableDependency>)
    ensures
        dependency_order(ids, deps).no_duplicates(),
        forall|t: TableId| dependency_order(ids, deps).contains(t) <==> ids.contains(t),
{
    let nodes = sorted_nodes(ids);
    let graph = graph_of(nodes, deps);
    let done = visit_roots(graph, nodes.len() as int);
    let order = dependency_order(ids, deps);
    lemma_sorted_nodes(ids);
    lemma_graph_in_range(nodes, deps);
    lemma_roots(graph, nodes.len() as int);
    assert forall|i: int, j: int| 0 <= i < order.len() && 0 <= j < order.len() && i != j implies order[i]
        != order[j] by {
        assert(done[i] != done[j]);
        assert(0 <= done[i] < nodes.len() && 0 <= done[j] < nodes.len());
    }
    assert forall|t: TableId| order.contains(t) <==> ids.contains(t) by {
        if order.contains(t) {
            let i = choose|i: int| 0 <= i < order.len() && order[i] == t;
            assert(0 <= done[i] < nodes.len());
            assert(nodes.contains(nodes[done[i]]));
        }
        if ids.contains(t) {
            assert(nodes.contains(t));
            let c = choose|c: int| 0 <= c < nodes.len() && nodes[c] == t;
            assert(done.contains(c));
            let i = choose|i: int| 0 <= i < done.len() && done[i] == c;
            assert(order[i] == t);
        }
    }
}

/// Where the dependencies among the selected tables run in no circle, a
/// table stands behind every table it depends on.
pub proof fn lemma_dependencies_first(ids: Seq<TableId>, deps: Seq<TableDependency>, i: int, j: int)
    requires
        acyclic(ids, deps),
        0 <= i < dependency_order(ids, deps).len(),
        0 <= j < dependency_order(ids, deps).len(),
        depends_on(ids, deps, dependency_order(ids, deps)[i], dependency_order(ids, deps)[j]),
    ensures
        j < i,
{
    let nodes = sorted_nodes(ids);
    let graph = graph_of(nodes, deps);
    let done = visit_roots(graph, nodes.len() as int);
    lemma_sorted_nodes(ids);
    lemma_graph_in_range(nodes, deps);
    lemma_graph_acyclic(ids, deps);
    lemma_roots(graph, nodes.len() as int);
    let c = done[i];
    let p = done[j];
    assert(0 <= c < nodes.len() && 0 <= p < nodes.len());
    lemma_positions_in_has(nodes, parent_ids(deps, nodes[c]), p);
    assert(graph[c].contains(p));
    assert(edge(graph, c, p));
    assert(done.take(i).contains(p));
    let k = choose|k: int| 0 <= k < done.take(i).len() && done.take(i)[k] == p;
    assert(done[k] == p);
}

/// The tables are searched in the order of the dictionary: of two roots of
/// the search, the earlier comes before the later.
pub proof fn lemma_roots_in_dictionary_order(ids: Seq<TableId>, i: int, j: int)
    requires
        0 <= i < j < sorted_nodes(ids).len(),
    ensures
        id_before(sorted_nodes(ids)[i], sorted_nodes(ids)[j]),
{
    lemma_nodes_ascending(ids);
}

/// Where no selected table depends on another, the tables come in the order
/// of the dictionary.
pub proof fn lemma_independent_tables_in_dictionary_order(
    ids: Seq<TableId>,
    deps: Seq<TableDependency>,
)
    requires
        forall|child: TableId, parent: TableId| !depends_on(ids, deps, child, parent),
    ensures
        dependency_order(ids, deps) == sorted_nodes(ids),
{
    let nodes = sorted_nodes(ids);
    let graph = graph_of(nodes, deps);
    lemma_sorted_nodes(ids);
    lemma_graph_in_range(nodes, deps);
    assert forall|c: int, k: int| 0 <= c < graph.len() && 0 <= k < graph[c].len() implies #[trigger] graph[c][k]
        == c by {
        lemma_positions_in_members(nodes, parent_ids(deps, nodes[c]));
        let p = graph[c][k];
        assert(nodes.contains(nodes[c]));
        assert(nodes.contains(nodes[p]));
        assert(!depends_on(ids, deps, nodes[c], nodes[p]));
    }
    lemma_roots_without_edges(graph, nodes.len() as int);
    assert(dependency_order(ids, deps) =~= nodes);
}

// ---------------------------------------------------------------------------
// The order of the dictionary
// ---------------------------------------------------------------------------
proof fn lemma_text_order(a: Seq<char>, b: Seq<char>, c: Seq<char>)
    ensures
        !text_before(a, a),
        a == b || text_before(a, b) || text_before(b, a),
        text_before(a, b) && text_before(b, c) ==> text_before(a, c),
    decreases a.len(),
{
    if a.len() == 0 {
        if b.len() == 0 {
            assert(a =~= b);
        }
    } else {
        lemma_text_order(a.skip(1), b.skip(1), c.skip(1));
        lemma_text_order(a.skip(1), a.skip(1), a.skip(1));
        if b.len() > 0 && a[0] == b[0] && a.skip(1) == b.skip(1) {
            assert(a.skip(1).len() == b.skip(1).len());
            assert forall|i: int| 0 <= i < a.len() implies a[i] == b[i] by {
                if i > 0 {
                    assert(a.skip(1)[i - 1] == a[i]);
                    assert(b.skip(1)[i - 1] == b[i]);
                }
            }
            assert(a =~= b);
        }
    }
}

proof fn lemma_id_order(a: TableId, b: TableId, c: TableId)
    ensures
        !id_before(a, a),
        a == b || id_before(a, b) || id_before(b, a),
        id_before(a, b) && id_before(b, c) ==> id_before(a, c),
{
    lemma_text_order(a.0, b.0, c.0);
    lemma_text_order(a.1, b.1, c.1);
    lemma_text_order(b.0, c.0, a.0);
    lemma_text_order(b.1, c.1, a.1);
    lemma_text_order(a.0, c.0, b.0);
}

/// The tables before the place at which a table enters come before it.
proof fn lemma_before_insert_position(nodes: Seq<TableId>, id: TableId, k: int)
    requires
        0 <= k < insert_position(nodes, id),
    ensures
        k < nodes.len(),
        id_before(nodes[k], id),
    decreases nodes.len(),
{
    if nodes.len() == 0 || !id_before(nodes[0], id) {
    } else {
        let rest = nodes.drop_first();
        if k > 0 {
            lemma_before_insert_position(rest, id, k - 1);
            assert(rest[k - 1] == nodes[k]);
        }
    }
}

proof fn lemma_at_insert_position(nodes: Seq<TableId>, id: TableId)
    ensures
        insert_position(nodes, id) < nodes.len() ==> !id_before(
            nodes[insert_position(nodes, id)],
            id,
        ),
    decreases nodes.len(),
{
    if nodes.len() == 0 || !id_before(nodes[0], id) {
    } else {
        let rest = nodes.drop_first();
        lemma_at_insert_position(rest, id);
        lemma_insert_position(rest, id);
        if insert_position(nodes, id) < nodes.len() {
            assert(rest[insert_position(rest, id)] == nodes[insert_position(nodes, id)]);
        }
    }
}

/// The tables of a selection, set in order, ascend in the order of the
/// dictionary.
proof fn lemma_nodes_ascending(ids: Seq<TableId>)
    ensures
        forall|i: int, j: int|
            0 <= i < j < sorted_nodes(ids).len() ==> id_before(
                #[trigger] sorted_nodes(ids)[i],
                #[trigger] sorted_nodes(ids)[j],
            ),
    decreases ids.len(),
{
    if ids.len() > 0 {
        let id = ids.last();
        let nodes = sorted_nodes(ids.drop_last());
        let after = sorted_nodes(ids);
        lemma_nodes_ascending(ids.drop_last());
        lemma_position(nodes, id);
        lemma_insert_position(nodes, id);
        lemma_at_insert_position(nodes, id);
        let at = insert_position(nodes, id);
        if position_of(nodes, id) >= nodes.len() {
            assert(after == nodes.insert(at, id));
            assert forall|i: int, j: int| 0 <= i < j < after.len() implies id_before(
                #[trigger] after[i],
                #[trigger] after[j],
            ) by {
                let x = if i < at {
                    i
                } else {
                    i - 1
                };
                let y = if j < at {
                    j
                } else {
                    j - 1
                };
                if j == at {
                    lemma_before_insert_position(nodes, id, i);
                } else if i == at {
                    // The table at the place of entry does not come before
                    // the new one and is not the new one: it comes behind
                    // it, and so does every table behind that one.
                    assert(after[j] == nodes[y]);
                    lemma_id_order(nodes[at], id, nodes[y]);
                    lemma_id_order(id, nodes[at], nodes[y]);
                    assert(nodes[at] != id);
                    if y > at {
                        assert(id_before(nodes[at], nodes[y]));
                    }
                } else {
                    assert(after[i] == nodes[x] && after[j] == nodes[y]);
                }
            }
        }
    }
}

/// In a graph without edges to other tables, the search leaves the roots
/// done in their own order.
proof fn lemma_roots_without_edges(graph: Seq<Seq<int>>, roots: int)
    requires
        0 <= roots <= graph.len(),
        forall|c: int, k: int|
            0 <= c < graph.len() && 0 <= k < graph[c].len() ==> #[trigger] graph[c][k] == c,
    ensures
        visit_roots(graph, roots) == Seq::new(roots as nat, |i: int| i),
    decreases roots,
{
    if roots > 0 {
        lemma_roots_without_edges(graph, roots - 1);
        let before = Seq::new((roots - 1) as nat, |i: int| i);
        let node = roots - 1;
        let none = Seq::<int>::empty();
        assert(!before.contains(node));
        assert(!none.contains(node));
        assert(none.push(node)[0] == node);
        if graph.len() > 0 {
            lemma_own_edges_do_nothing(
                graph,
                (graph.len() - 1) as nat,
                node,
                graph[node],
                none.push(node),
                before,
            );
        }
        assert(before.push(node) =~= Seq::new(roots as nat, |i: int| i));
    } else {
        assert(visit_roots(graph, roots) =~= Seq::new(roots as nat, |i: int| i));
    }
}

/// A visit to each of the edges of a table to itself, while that table is
/// on the path, leaves the tables done as they are.
proof fn lemma_own_edges_do_nothing(
    graph: Seq<Seq<int>>,
    room: nat,
    node: int,
    parents: Seq<int>,
    path: Seq<int>,
    done: Seq<int>,
)
    requires
        path.contains(node),
        forall|k: int| 0 <= k < parents.len() ==> parents[k] == node,
    ensures
        visit_each(graph, room, parents, path, done) == done,
    decreases parents.len(),
{
    if parents.len() > 0 {
        assert(parents[0] == node);
        assert(visit_order(graph, room, parents[0], path, done) == done);
        assert forall|k: int| 0 <= k < parents.drop_first().len() implies parents.drop_first()[k]
            == node by {
            assert(parents.drop_first()[k] == parents[k + 1]);
        }
        lemma_own_edges_do_nothing(graph, room, node, parents.drop_first(), path, done);
    }
}

// ---------------------------------------------------------------------------
// The tables of the selection
// ---------------------------------------------------------------------------
proof fn lemma_position(nodes: Seq<TableId>, id: TableId)
    ensures
        0 <= position_of(nodes, id) <= nodes.len(),
        position_of(nodes, id) < nodes.len() ==> nodes[position_of(nodes, id)] == id,
        forall|j: int| 0 <= j < position_of(nodes, id) ==> nodes[j] != id,
    decreases nodes.len(),
{
    if nodes.len() == 0 || nodes[0] == id {
    } else {
        lemma_position(nodes.drop_first(), id);
        assert forall|j: int| 0 <= j < position_of(nodes, id) implies nodes[j] != id by {
            if j > 0 {
                assert(nodes.drop_first()[j - 1] == nodes[j]);
            }
        }
    }
}

/// In a list without repetition, a table has the place at which it stands.
proof fn lemma_position_of_member(nodes: Seq<TableId>, c: int)
    requires
        nodes.no_duplicates(),
        0 <= c < nodes.len(),
    ensures
        position_of(nodes, nodes[c]) == c,
{
    lemma_position(nodes, nodes[c]);
    let p = position_of(nodes, nodes[c]);
    if p > c {
        assert(nodes[c] != nodes[c]);
    }
}

proof fn lemma_insert_position(nodes: Seq<TableId>, id: TableId)
    ensures
        0 <= insert_position(nodes, id) <= nodes.len(),
    decreases nodes.len(),
{
    if nodes.len() == 0 || !id_before(nodes[0], id) {
    } else {
        lemma_insert_position(nodes.drop_first(), id);
    }
}

/// The tables of a selection, set in order, are the tables of the selection,
/// each once.
proof fn lemma_sorted_nodes(ids: Seq<TableId>)
    ensures
        sorted_nodes(ids).no_duplicates(),
        forall|t: TableId| sorted_nodes(ids).contains(t) <==> ids.contains(t),
    decreases ids.len(),
{
    if ids.len() > 0 {
        let front = ids.drop_last();
        let id = ids.last();
        let nodes = sorted_nodes(front);
        lemma_sorted_nodes(front);
        lemma_position(nodes, id);
        lemma_insert_position(nodes, id);
        let after = insert_sorted(nodes, id);
        let at = insert_position(nodes, id);
        if position_of(nodes, id) < nodes.len() {
            assert(nodes.contains(id));
        } else {
            assert(!nodes.contains(id));
            assert(after == nodes.insert(at, id));
            assert forall|a: int, b: int| 0 <= a < after.len() && 0 <= b < after.len() && a
                != b implies after[a] != after[b] by {
                let x = if a < at {
                    a
                } else {
                    a - 1
                };
                let y = if b < at {
                    b
                } else {
                    b - 1
                };
                if a == at {
                    assert(after[b] == nodes[y]);
                    assert(nodes.contains(nodes[y]));
                } else if b == at {
                    assert(after[a] == nodes[x]);
                    assert(nodes.contains(nodes[x]));
                } else {
                    assert(after[a] == nodes[x]);
                    assert(after[b] == nodes[y]);
                }
            }
        }
        assert forall|t: TableId| after.contains(t) <==> ids.contains(t) by {
            if after.contains(t) {
                let a = choose|a: int| 0 <= a < after.len() && after[a] == t;
                if position_of(nodes, id) < nodes.len() {
                    assert(nodes.contains(t));
                } else if a == at {
                    assert(t == id);
                } else {
                    let x = if a < at {
                        a
                    } else {
                        a - 1
                    };
                    assert(after[a] == nodes[x]);
                    assert(nodes.contains(t));
                }
                if t != id {
                    assert(front.contains(t));
                    let f = choose|f: int| 0 <= f < front.len() && front[f] == t;
                    assert(ids[f] == t);
                } else {
                    assert(ids[ids.len() - 1] == t);
                }
            }
            if ids.contains(t) {
                let f = choose|f: int| 0 <= f < ids.len() && ids[f] == t;
                if f < ids.len() - 1 {
                    assert(front[f] == t);
                    assert(front.contains(t));
                    assert(nodes.contains(t));
                    let x = choose|x: int| 0 <= x < nodes.len() && nodes[x] == t;
                    if position_of(nodes, id) < nodes.len() {
                    } else if x < at {
                        assert(after[x] == t);
                    } else {
                        assert(after[x + 1] == t);
                    }
                } else {
                    assert(t == id);
                    if position_of(nodes, id) < nodes.len() {
                    } else {
                        assert(after[at] == t);
                    }
                }
            }
        }
    }
}

// ---------------------------------------------------------------------------
// The graph
// ---------------------------------------------------------------------------
/// The table at `c` depends on the table at `p`, which is another one.
pub open spec fn edge(graph: Seq<Seq<int>>, c: int, p: int) -> bool {
    0 <= c < graph.len() && c != p && graph[c].contains(p)
}

/// Each place of `circle` has an edge to the next, and the last to the
/// first.
pub open spec fn graph_circle(graph: Seq<Seq<int>>, circle: Seq<int>) -> bool {
    &&& circle.len() >= 1
    &&& all_below(circle, graph.len() as int)
    &&& forall|i: int| 0 <= i < circle.len() - 1 ==> edge(graph, #[trigger] circle[i], circle[i + 1])
    &&& edge(graph, circle.last(), circle[0])
}

/// The edges of the graph run in no circle.
pub open spec fn graph_acyclic(graph: Seq<Seq<int>>) -> bool {
    forall|circle: Seq<int>| !#[trigger] graph_circle(graph, circle)
}

/// The places that `positions_in` gives are places of `nodes`, and places of
/// members of `ids`.
proof fn lemma_positions_in_members(nodes: Seq<TableId>, ids: Seq<TableId>)
    ensures
        forall|k: int|
            0 <= k < positions_in(nodes, ids).len() ==> 0 <= #[trigger] positions_in(nodes, ids)[k]
                < nodes.len() && ids.contains(nodes[positions_in(nodes, ids)[k]]),
    decreases ids.len(),
{
    if ids.len() > 0 {
        let front = ids.drop_last();
        lemma_positions_in_members(nodes, front);
        lemma_position(nodes, ids.last());
        let got = positions_in(nodes, ids);
        assert forall|k: int| 0 <= k < got.len() implies 0 <= #[trigger] got[k] < nodes.len()
            && ids.contains(nodes[got[k]]) by {
            if k < positions_in(nodes, front).len() {
                let x = positions_in(nodes, front)[k];
                assert(got[k] == x);
                assert(front.contains(nodes[x]));
                let f = choose|f: int| 0 <= f < front.len() && front[f] == nodes[x];
                assert(ids[f] == nodes[x]);
            } else {
                assert(got[k] == position_of(nodes, ids.last()));
                assert(ids[ids.len() - 1] == nodes[got[k]]);
            }
        }
    }
}

/// The place of a member of `ids` that stands in `nodes` is among the places
/// that `positions_in` gives.
proof fn lemma_positions_in_has(nodes: Seq<TableId>, ids: Seq<TableId>, p: int)
    requires
        nodes.no_duplicates(),
        0 <= p < nodes.len(),
        ids.contains(nodes[p]),
    ensures
        positions_in(nodes, ids).contains(p),
    decreases ids.len(),
{
    let f = choose|f: int| 0 <= f < ids.len() && ids[f] == nodes[p];
    let front = ids.drop_last();
    let got = positions_in(nodes, ids);
    lemma_position_of_member(nodes, p);
    if f == ids.len() - 1 {
        assert(got == positions_in(nodes, front).push(p));
        assert(got[got.len() - 1] == p);
    } else {
        assert(front[f] == nodes[p]);
        lemma_positions_in_has(nodes, front, p);
        let k = choose|k: int|
            0 <= k < positions_in(nodes, front).len() && positions_in(nodes, front)[k] == p;
        assert(got[k] == p);
    }
}

proof fn lemma_graph_in_range(nodes: Seq<TableId>, deps: Seq<TableDependency>)
    ensures
        graph_in_range(graph_of(nodes, deps)),
        graph_of(nodes, deps).len() == nodes.len(),
{
    let graph = graph_of(nodes, deps);
    assert forall|c: int, k: int| 0 <= c < graph.len() && 0 <= k < graph[c].len() implies 0
        <= #[trigger] graph[c][k] < graph.len() by {
        lemma_positions_in_members(nodes, parent_ids(deps, nodes[c]));
    }
}

/// Where the dependencies among the selected tables run in no circle, the
/// edges of their graph run in none.
proof fn lemma_graph_acyclic(ids: Seq<TableId>, deps: Seq<TableDependency>)
    requires
        acyclic(ids, deps),
    ensures
        graph_acyclic(graph_of(sorted_nodes(ids), deps)),
{
    let nodes = sorted_nodes(ids);
    let graph = graph_of(nodes, deps);
    lemma_sorted_nodes(ids);
    assert forall|circle: Seq<int>| !#[trigger] graph_circle(graph, circle) by {
        if graph_circle(graph, circle) {
            let tables = Seq::new(circle.len(), |i: int| nodes[circle[i]]);
            assert forall|c: int, p: int| edge(graph, c, p) && 0 <= p < nodes.len() implies depends_on(
                ids,
                deps,
                nodes[c],
                nodes[p],
            ) by {
                lemma_positions_in_members(nodes, parent_ids(deps, nodes[c]));
                let k = choose|k: int| 0 <= k < graph[c].len() && graph[c][k] == p;
                assert(parent_ids(deps, nodes[c]).contains(nodes[graph[c][k]]));
                assert(nodes.contains(nodes[c]));
                assert(nodes.contains(nodes[p]));
            }
            assert forall|i: int| 0 <= i < tables.len() - 1 implies depends_on(
                ids,
                deps,
                #[trigger] tables[i],
                tables[i + 1],
            ) by {
                assert(edge(graph, circle[i], circle[i + 1]));
                assert(0 <= circle[i + 1] < nodes.len());
            }
            assert(edge(graph, circle.last(), circle[0]));
            assert(0 <= circle[0] < nodes.len());
            assert(tables.last() == nodes[circle.last()]);
            assert(is_circle(ids, deps, tables));
        }
    }
}

// ---------------------------------------------------------------------------
// The search
// ---------------------------------------------------------------------------
/// The tables on the path are distinct places of the graph, and each depends
/// on the one behind it.
pub open spec fn is_chain(graph: Seq<Seq<int>>, path: Seq<int>) -> bool {
    &&& path.no_duplicates()
    &&& all_below(path, graph.len() as int)
    &&& forall|i: int| 0 <= i < path.len() - 1 ==> graph[#[trigger] path[i]].contains(path[i + 1])
}

/// Every table that is done stands behind the tables it depends on.
pub open spec fn settled(graph: Seq<Seq<int>>, done: Seq<int>) -> bool {
    forall|i: int, p: int|
        0 <= i < done.len() && #[trigger] edge(graph, done[i], p) ==> done.take(i).contains(p)
}

/// No table is both done and on the path.
pub open spec fn apart(done: Seq<int>, path: Seq<int>) -> bool {
    forall|x: int| !(done.contains(x) && #[trigger] path.contains(x))
}

/// What a search keeps of the tables done: they are distinct places of the
/// graph, none of them on the path, and settled where the graph has no
/// circle.
pub open spec fn sound(graph: Seq<Seq<int>>, path: Seq<int>, done: Seq<int>) -> bool {
    &&& all_below(done, graph.len() as int)
    &&& done.no_duplicates()
    &&& apart(done, path)
    &&& graph_acyclic(graph) ==> settled(graph, done)
}

/// `done` is how `after` begins.
pub open spec fn extends(after: Seq<int>, done: Seq<int>) -> bool {
    done.len() <= after.len() && after.take(done.len() as int) == done
}

proof fn lemma_extends_contains(after: Seq<int>, done: Seq<int>, x: int)
    requires
        extends(after, done),
        done.contains(x),
    ensures
        after.contains(x),
{
    let k = choose|k: int| 0 <= k < done.len() && done[k] == x;
    assert(after.take(done.len() as int)[k] == x);
    assert(after[k] == x);
}

proof fn lemma_extends_chain(last: Seq<int>, middle: Seq<int>, first: Seq<int>)
    requires
        extends(last, middle),
        extends(middle, first),
    ensures
        extends(last, first),
{
    assert(last.take(first.len() as int) =~= first) by {
        assert forall|k: int| 0 <= k < first.len() implies last[k] == first[k] by {
            assert(middle.take(first.len() as int)[k] == first[k]);
            assert(last.take(middle.len() as int)[k] == middle[k]);
        }
    }
}

/// A visit keeps the search sound, keeps what was done, and leaves the table
/// done unless its visit is under way.
proof fn lemma_visit(graph: Seq<Seq<int>>, room: nat, node: int, path: Seq<int>, done: Seq<int>)
    requires
        graph_in_range(graph),
        0 <= node < graph.len(),
        is_chain(graph, path),
        path.len() > 0 ==> graph[path.last()].contains(node),
        room + path.len() >= graph.len(),
        sound(graph, path, done),
    ensures
        sound(graph, path, visit_order(graph, room, node, path, done)),
        extends(visit_order(graph, room, node, path, done), done),
        visit_order(graph, room, node, path, done).contains(node) || path.contains(node),
    decreases room, 0nat,
{
    let after = visit_order(graph, room, node, path, done);
    if done.contains(node) || path.contains(node) {
        assert(after == done);
        assert(done.take(done.len() as int) == done);
    } else {
        let longer = path.push(node);
        assert(longer.no_duplicates());
        assert(all_below(longer, graph.len() as int));
        lemma_distinct_places_are_few(longer, graph.len() as int);
        assert(room > 0);
        assert(is_chain(graph, longer)) by {
            assert forall|i: int| 0 <= i < longer.len() - 1 implies graph[#[trigger] longer[i]].contains(
                longer[i + 1],
            ) by {
                if i < path.len() - 1 {
                    assert(longer[i] == path[i] && longer[i + 1] == path[i + 1]);
                } else {
                    assert(longer[i] == path.last() && longer[i + 1] == node);
                }
            }
        }
        let parents = graph[node];
        assert(all_below(parents, graph.len() as int)) by {
            assert forall|k: int| 0 <= k < parents.len() implies 0 <= #[trigger] parents[k]
                < graph.len() by {
                assert(0 <= graph[node][k] < graph.len());
            }
        }
        assert(apart(done, longer)) by {
            assert forall|x: int| !(done.contains(x) && #[trigger] longer.contains(x)) by {
                if longer.contains(x) && x != node {
                    let k = choose|k: int| 0 <= k < longer.len() && longer[k] == x;
                    assert(path[k] == x);
                    assert(path.contains(x));
                }
            }
        }
        assert(longer.last() == node);
        lemma_each(graph, (room - 1) as nat, parents, longer, done);
        let inner = visit_each(graph, (room - 1) as nat, parents, longer, done);
        assert(after == inner.push(node));
        assert(longer.contains(node)) by {
            assert(longer[longer.len() - 1] == node);
        }
        assert(!inner.contains(node));
        // What was done is kept.
        assert(extends(after, inner)) by {
            assert(after.take(inner.len() as int) =~= inner);
        }
        lemma_extends_chain(after, inner, done);
        assert(after[after.len() - 1] == node);
        // The tables done are still distinct places, none of them on the path.
        assert(after.no_duplicates()) by {
            assert forall|a: int, b: int| 0 <= a < after.len() && 0 <= b < after.len() && a
                != b implies after[a] != after[b] by {
                if a < inner.len() {
                    assert(inner.contains(after[a]));
                }
                if b < inner.len() {
                    assert(inner.contains(after[b]));
                }
            }
        }
        assert(apart(after, path)) by {
            assert forall|x: int| !(after.contains(x) && #[trigger] path.contains(x)) by {
                if after.contains(x) && path.contains(x) {
                    let k = choose|k: int| 0 <= k < after.len() && after[k] == x;
                    let q = choose|q: int| 0 <= q < path.len() && path[q] == x;
                    assert(longer[q] == x);
                    assert(longer.contains(x));
                    if k < inner.len() {
                        assert(inner.contains(x));
                    }
                }
            }
        }
        if graph_acyclic(graph) {
            assert forall|i: int, p: int| 0 <= i < after.len() && #[trigger] edge(
                graph,
                after[i],
                p,
            ) implies after.take(i).contains(p) by {
                if i < inner.len() {
                    assert(inner.take(i).contains(p));
                    assert(after.take(i) =~= inner.take(i));
                } else {
                    // `p` is a table that `node` depends on. It is done, for
                    // if it were on the path, the path from it to `node` and
                    // the edge back would make a circle.
                    let k = choose|k: int| 0 <= k < parents.len() && parents[k] == p;
                    if longer.contains(p) {
                        let q = choose|q: int| 0 <= q < longer.len() && longer[q] == p;
                        let circle = longer.subrange(q, longer.len() as int);
                        assert(circle.len() >= 1);
                        assert(circle.last() == node);
                        assert(circle[0] == p);
                        assert forall|c: int| 0 <= c < circle.len() - 1 implies edge(
                            graph,
                            #[trigger] circle[c],
                            circle[c + 1],
                        ) by {
                            assert(circle[c] == longer[q + c]);
                            assert(circle[c + 1] == longer[q + c + 1]);
                            assert(graph[longer[q + c]].contains(longer[q + c + 1]));
                        }
                        assert(all_below(circle, graph.len() as int)) by {
                            assert forall|c: int| 0 <= c < circle.len() implies 0
                                <= #[trigger] circle[c] < graph.len() by {
                                assert(circle[c] == longer[q + c]);
                            }
                        }
                        assert(graph_circle(graph, circle));
                        assert(false);
                    }
                    assert(inner.contains(p));
                    assert(after.take(i) =~= inner);
                }
            }
        }
    }
}

/// A visit to each of the tables that the last table of the path depends on
/// keeps the search sound, keeps what was done, and leaves each of them done
/// unless its visit is under way.
proof fn lemma_each(graph: Seq<Seq<int>>, room: nat, parents: Seq<int>, path: Seq<int>, done: Seq<int>)
    requires
        graph_in_range(graph),
        all_below(parents, graph.len() as int),
        is_chain(graph, path),
        path.len() > 0,
        forall|k: int| 0 <= k < parents.len() ==> graph[path.last()].contains(#[trigger] parents[k]),
        room + path.len() >= graph.len(),
        sound(graph, path, done),
    ensures
        sound(graph, path, visit_each(graph, room, parents, path, done)),
        extends(visit_each(graph, room, parents, path, done), done),
        forall|k: int|
            0 <= k < parents.len() ==> visit_each(graph, room, parents, path, done).contains(
                #[trigger] parents[k],
            ) || path.contains(parents[k]),
    decreases room, parents.len() + 1,
{
    let after = visit_each(graph, room, parents, path, done);
    if parents.len() == 0 {
        assert(done.take(done.len() as int) == done);
    } else {
        let first = parents[0];
        let rest = parents.drop_first();
        assert(0 <= first < graph.len());
        lemma_visit(graph, room, first, path, done);
        let middle = visit_order(graph, room, first, path, done);
        assert forall|k: int| 0 <= k < rest.len() implies 0 <= #[trigger] rest[k] < graph.len()
            && graph[path.last()].contains(rest[k]) by {
            assert(rest[k] == parents[k + 1]);
        }
        lemma_each(graph, room, rest, path, middle);
        lemma_extends_chain(after, middle, done);
        assert forall|k: int| 0 <= k < parents.len() implies after.contains(#[trigger] parents[k])
            || path.contains(parents[k]) by {
            if k == 0 {
                if middle.contains(first) {
                    lemma_extends_contains(after, middle, first);
                }
            } else {
                assert(rest[k - 1] == parents[k]);
            }
        }
    }
}

/// The visits to the first `roots` tables leave each of them done, and the
/// search sound.
proof fn lemma_roots(graph: Seq<Seq<int>>, roots: int)
    requires
        graph_in_range(graph),
        roots <= graph.len(),
    ensures
        sound(graph, Seq::empty(), visit_roots(graph, roots)),
        forall|c: int| 0 <= c < roots ==> #[trigger] visit_roots(graph, roots).contains(c),
    decreases roots,
{
    let none = Seq::<int>::empty();
    if roots > 0 {
        lemma_roots(graph, roots - 1);
        let before = visit_roots(graph, roots - 1);
        lemma_visit(graph, graph.len(), roots - 1, none, before);
        let after = visit_roots(graph, roots);
        assert forall|c: int| 0 <= c < roots implies #[trigger] after.contains(c) by {
            if c < roots - 1 {
                assert(before.contains(c));
                lemma_extends_contains(after, before, c);
            }
        }
    }
}

} // verus!
