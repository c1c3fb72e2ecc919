//! The dependency resolver: the order in which the tables of a selection are
//! transferred, so that a table comes after the tables that its foreign keys
//! point to.

use crate::resolver_laws::{
    acyclic, depends_on, lemma_dependencies_first, lemma_each_table_once,
};
use crate::schema::TableDependency;
use crate::text::{same_text, text_before, text_less};
use vstd::prelude::*;
use vstd::string::*;

verus! {

/// A table that was selected, by its schema and its name.
#[derive(Clone, Debug, PartialEq, Eq)]
pub struct TableSelection {
    pub schema: String,
    pub name: String,
}

/// A table by the characters of its schema and of its name.
pub type TableId = (Seq<char>, Seq<char>);

// ---------------------------------------------------------------------------
// The model: tables and their order
// ---------------------------------------------------------------------------
/// The tables of a selection, in the order in which they were selected.
pub open spec fn selection_ids(tables: Seq<TableSelection>) -> Seq<TableId> {
    Seq::new(tables.len(), |i: int| (tables[i].schema@, tables[i].name@))
}

/// `a` comes before `b` in the order of the dictionary, by schema first and
/// by name second.
pub open spec fn id_before(a: TableId, b: TableId) -> bool {
    text_before(a.0, b.0) || (a.0 == b.0 && text_before(a.1, b.1))
}

/// The first place of `id` in `nodes`, or the length of `nodes` where it has
/// none.
pub open spec fn position_of(nodes: Seq<TableId>, id: TableId) -> int
    decreases nodes.len(),
{
    if nodes.len() == 0 || nodes[0] == id {
        0
    } else {
        1 + position_of(nodes.drop_first(), id)
    }
}

/// The place at which `id` enters `nodes`: behind the leading tables that
/// come before it.
pub open spec fn insert_position(nodes: Seq<TableId>, id: TableId) -> int
    decreases nodes.len(),
{
    if nodes.len() == 0 || !id_before(nodes[0], id) {
        0
    } else {
        1 + insert_position(nodes.drop_first(), id)
    }
}

/// `nodes` with `id` among them: where it is new, it enters behind the
/// leading tables that come before it.
pub open spec fn insert_sorted(nodes: Seq<TableId>, id: TableId) -> Seq<TableId> {
    if position_of(nodes, id) < nodes.len() {
        nodes
    } else {
        nodes.insert(insert_position(nodes, id), id)
    }
}

/// The tables of a selection without repetition, in the order of the
/// dictionary.
pub open spec fn sorted_nodes(ids: Seq<TableId>) -> Seq<TableId>
    decreases ids.len(),
{
    if ids.len() == 0 {
        Seq::empty()
    } else {
        insert_sorted(sorted_nodes(ids.drop_last()), ids.last())
    }
}

// ---------------------------------------------------------------------------
// The model: dependencies
// ---------------------------------------------------------------------------
/// The table that an entry speaks of.
pub open spec fn dependent_id(dep: TableDependency) -> TableId {
    (dep.schema@, dep.name@)
}

/// The tables that an entry says its table depends on, in order.
pub open spec fn listed_parents(dep: TableDependency) -> Seq<TableId> {
    Seq::new(dep.depends_on@.len(), |j: int| (dep.depends_on@[j].0@, dep.depends_on@[j].1@))
}

/// All the tables that `child` is said to depend on: what each of its
/// entries lists, in the order of the entries.
pub open spec fn parent_ids(deps: Seq<TableDependency>, child: TableId) -> Seq<TableId>
    decreases deps.len(),
{
    if deps.len() == 0 {
        Seq::empty()
    } else if dependent_id(deps.last()) == child {
        parent_ids(deps.drop_last(), child) + listed_parents(deps.last())
    } else {
        parent_ids(deps.drop_last(), child)
    }
}

/// The places in `nodes` of those of `ids` that have one, in the order of
/// `ids`.
pub open spec fn positions_in(nodes: Seq<TableId>, ids: Seq<TableId>) -> Seq<int>
    decreases ids.len(),
{
    if ids.len() == 0 {
        Seq::empty()
    } else if position_of(nodes, ids.last()) < nodes.len() {
        positions_in(nodes, ids.drop_last()).push(position_of(nodes, ids.last()))
    } else {
        positions_in(nodes, ids.drop_last())
    }
}

/// The graph of a selection: for each of `nodes`, by its place, the places
/// of the tables among `nodes` that it depends on. Tables outside the
/// selection have no part in it.
pub open spec fn graph_of(nodes: Seq<TableId>, deps: Seq<TableDependency>) -> Seq<Seq<int>> {
    Seq::new(nodes.len(), |c: int| positions_in(nodes, parent_ids(deps, nodes[c])))
}

// ---------------------------------------------------------------------------
// The model: the search
// ---------------------------------------------------------------------------
/// The tables done after a visit to `node`, given the tables `done` before it
/// and the `path` of tables whose visit is under way.
///
/// A table that is done or under way is passed over: that is how an edge
/// that closes a cycle is dropped. Any other table is done once the tables
/// it depends on were visited, one after the other. `room` bounds the length
/// of the path, which never exceeds the number of tables.
pub open spec fn visit_order(
    graph: Seq<Seq<int>>,
    room: nat,
    node: int,
    path: Seq<int>,
    done: Seq<int>,
) -> Seq<int>
    decreases room, 0nat,
{
    if room == 0 || done.contains(node) || path.contains(node) {
        done
    } else {
        visit_each(graph, (room - 1) as nat, graph[node], path.push(node), done).push(node)
    }
}

/// The tables done after a visit to each of `parents` in turn.
pub open spec fn visit_each(
    graph: Seq<Seq<int>>,
    room: nat,
    parents: Seq<int>,
    path: Seq<int>,
    done: Seq<int>,
) -> Seq<int>
    decreases room, parents.len() + 1,
{
    if parents.len() == 0 {
        done
    } else {
        visit_each(
            graph,
            room,
            parents.drop_first(),
            path,
            visit_order(graph, room, parents[0], path, done),
        )
    }
}

/// The tables done after a visit to each of the first `roots` tables in
/// turn, each visit starting with an empty path.
pub open spec fn visit_roots(graph: Seq<Seq<int>>, roots: int) -> Seq<int>
    decreases roots,
{
    if roots <= 0 {
        Seq::empty()
    } else {
        visit_order(
            graph,
            graph.len(),
            roots - 1,
            Seq::empty(),
            visit_roots(graph, roots - 1),
        )
    }
}

/// The order in which the tables of a selection are transferred: the tables
/// without repetition, taken in the order of the dictionary, each after the
/// selected tables it depends on have been searched, depth first.
pub open spec fn dependency_order(ids: Seq<TableId>, deps: Seq<TableDependency>) -> Seq<TableId> {
    let nodes = sorted_nodes(ids);
    let done = visit_roots(graph_of(nodes, deps), nodes.len() as int);
    Seq::new(done.len(), |i: int| nodes[done[i]])
}

// ---------------------------------------------------------------------------
// Views of the executable state
// ---------------------------------------------------------------------------
/// Machine integers as integers.
pub open spec fn ints(v: Seq<usize>) -> Seq<int> {
    Seq::new(v.len(), |i: int| v[i] as int)
}

/// Lists of machine integers as lists of integers.
pub open spec fn graph_view(graph: Seq<Vec<usize>>) -> Seq<Seq<int>> {
    Seq::new(graph.len(), |c: int| ints(graph[c]@))
}

/// The tables that a list of places in a selection stands for.
pub open spec fn ids_at(places: Seq<usize>, ids: Seq<TableId>) -> Seq<TableId> {
    Seq::new(places.len(), |k: int| ids[places[k] as int])
}

/// Every place that the graph names is a place of the graph.
pub open spec fn graph_in_range(graph: Seq<Seq<int>>) -> bool {
    forall|c: int, k: int|
        0 <= c < graph.len() && 0 <= k < graph[c].len() ==> 0 <= #[trigger] graph[c][k]
            < graph.len()
}

/// Every member of `list` is a place below `n`.
pub open spec fn all_below(list: Seq<int>, n: int) -> bool {
    forall|k: int| 0 <= k < list.len() ==> 0 <= #[trigger] list[k] < n
}

/// The flags say which places are members of `list`.
pub open spec fn flags_match(flags: Seq<bool>, list: Seq<int>) -> bool {
    forall|i: int| 0 <= i < flags.len() ==> #[trigger] flags[i] == list.contains(i)
}

// ---------------------------------------------------------------------------
// Lemmas of the executable search
// ---------------------------------------------------------------------------
/// A list of distinct places below `n` has at most `n` members.
pub proof fn lemma_distinct_places_are_few(list: Seq<int>, n: int)
    requires
        0 <= n,
        list.no_duplicates(),
        all_below(list, n),
    ensures
        list.len() <= n,
{
    list.unique_seq_to_set();
    vstd::set_lib::lemma_int_range(0, n);
    assert forall|x: int| list.to_set().contains(x) implies vstd::set_lib::set_int_range(
        0,
        n,
    ).contains(x) by {
        let k = choose|k: int| 0 <= k < list.len() && list[k] == x;
        assert(0 <= list[k] < n);
    }
    vstd::set_lib::lemma_len_subset(list.to_set(), vstd::set_lib::set_int_range(0, n));
}

proof fn lemma_ints_push(v: Seq<usize>, x: usize)
    ensures
        ints(v.push(x)) == ints(v).push(x as int),
{
    assert(ints(v.push(x)) =~= ints(v).push(x as int));
}

proof fn lemma_positions_in_concat(nodes: Seq<TableId>, a: Seq<TableId>, b: Seq<TableId>)
    ensures
        positions_in(nodes, a + b) == positions_in(nodes, a) + positions_in(nodes, b),
    decreases b.len(),
{
    if b.len() == 0 {
        assert(a + b == a);
        assert(positions_in(nodes, a) + positions_in(nodes, b) == positions_in(nodes, a));
    } else {
        lemma_positions_in_concat(nodes, a, b.drop_last());
        assert((a + b).drop_last() == a + b.drop_last());
        assert((a + b).last() == b.last());
        let front = positions_in(nodes, a) + positions_in(nodes, b.drop_last());
        if position_of(nodes, b.last()) < nodes.len() {
            assert(front.push(position_of(nodes, b.last())) == positions_in(nodes, a)
                + positions_in(nodes, b.drop_last()).push(position_of(nodes, b.last())));
        }
    }
}

// ---------------------------------------------------------------------------
// Executable functions
// ---------------------------------------------------------------------------
/// Whether the table `schema.name` comes before `other` in the order of the
/// dictionary.
fn comes_before(schema: &str, name: &str, other: &TableSelection) -> (r: bool)
    ensures
        r == id_before((schema@, name@), (other.schema@, other.name@)),
{
    if text_less(schema, other.schema.as_str()) {
        true
    } else if same_text(schema, other.schema.as_str()) {
        text_less(name, other.name.as_str())
    } else {
        false
    }
}

/// The place among `nodes` of the table `schema.name`, if it has one.
fn find_node(tables: &Vec<TableSelection>, nodes: &Vec<usize>, schema: &str, name: &str) -> (r:
    Option<usize>)
    requires
        forall|k: int| 0 <= k < nodes.len() ==> #[trigger] nodes[k] < tables.len(),
    ensures
        match r {
            Some(p) => p < nodes.len() && p == position_of(
                ids_at(nodes@, selection_ids(tables@)),
                (schema@, name@),
            ),
            None => position_of(ids_at(nodes@, selection_ids(tables@)), (schema@, name@))
                == nodes.len(),
        },
{
    let ghost all = ids_at(nodes@, selection_ids(tables@));
    let ghost id = (schema@, name@);
    let mut j: usize = 0;
    proof {
        assert(all.skip(0) == all);
    }
    while j < nodes.len()
        invariant
            j <= nodes.len(),
            all == ids_at(nodes@, selection_ids(tables@)),
            id == (schema@, name@),
            forall|k: int| 0 <= k < nodes.len() ==> #[trigger] nodes[k] < tables.len(),
            position_of(all, id) == j + position_of(all.skip(j as int), id),
        decreases nodes.len() - j,
    {
        let t = &tables[nodes[j]];
        proof {
            assert(all.skip(j as int)[0] == all[j as int]);
            assert(all.skip(j as int).drop_first() == all.skip(j + 1));
        }
        if same_text(schema, t.schema.as_str()) && same_text(name, t.name.as_str()) {
            return Some(j);
        }
        j = j + 1;
    }
    None
}

/// The tables of the selection without repetition, in the order of the
/// dictionary, each by the place of its first occurrence in the selection.
fn sort_nodes(tables: &Vec<TableSelection>) -> (nodes: Vec<usize>)
    ensures
        forall|k: int| 0 <= k < nodes.len() ==> #[trigger] nodes[k] < tables.len(),
        ids_at(nodes@, selection_ids(tables@)) == sorted_nodes(selection_ids(tables@)),
{
    let ghost ids = selection_ids(tables@);
    let mut nodes: Vec<usize> = Vec::new();
    let mut i: usize = 0;
    proof {
        assert(ids.take(0) =~= Seq::<TableId>::empty());
        assert(ids_at(nodes@, ids) =~= Seq::<TableId>::empty());
    }
    while i < tables.len()
        invariant
            i <= tables.len(),
            ids == selection_ids(tables@),
            forall|k: int| 0 <= k < nodes.len() ==> #[trigger] nodes[k] < tables.len(),
            ids_at(nodes@, ids) == sorted_nodes(ids.take(i as int)),
        decreases tables.len() - i,
    {
        let t = &tables[i];
        let ghost id = ids[i as int];
        let ghost all = ids_at(nodes@, ids);
        proof {
            assert(ids.take(i + 1).drop_last() == ids.take(i as int));
            assert(ids.take(i + 1).last() == id);
        }
        let found = find_node(tables, &nodes, t.schema.as_str(), t.name.as_str());
        if found.is_none() {
            let mut at: usize = 0;
            proof {
                assert(all.skip(0) == all);
            }
            while at < nodes.len() && comes_before(
                tables[nodes[at]].schema.as_str(),
                tables[nodes[at]].name.as_str(),
                t,
            )
                invariant
                    at <= nodes.len(),
                    ids == selection_ids(tables@),
                    all == ids_at(nodes@, ids),
                    id == (t.schema@, t.name@),
                    forall|k: int| 0 <= k < nodes.len() ==> #[trigger] nodes[k] < tables.len(),
                    insert_position(all, id) == at + insert_position(all.skip(at as int), id),
                decreases nodes.len() - at,
            {
                proof {
                    assert(all.skip(at as int)[0] == all[at as int]);
                    assert(all.skip(at as int).drop_first() == all.skip(at + 1));
                }
                at = at + 1;
            }
            proof {
                if at < nodes.len() {
                    assert(all.skip(at as int)[0] == all[at as int]);
                }
            }
            nodes.insert(at, i);
            proof {
                assert(ids_at(nodes@, ids) =~= all.insert(at as int, id));
            }
        }
        i = i + 1;
    }
    proof {
        assert(ids.take(tables@.len() as int) == ids);
    }
    nodes
}

/// The places among `nodes` of the tables that the table `schema.name`
/// depends on, in the order in which the entries list them.
fn parents_of(
    tables: &Vec<TableSelection>,
    nodes: &Vec<usize>,
    all_deps: &Vec<TableDependency>,
    schema: &str,
    name: &str,
) -> (row: Vec<usize>)
    requires
        forall|k: int| 0 <= k < nodes.len() ==> #[trigger] nodes[k] < tables.len(),
    ensures
        ints(row@) == positions_in(
            ids_at(nodes@, selection_ids(tables@)),
            parent_ids(all_deps@, (schema@, name@)),
        ),
        forall|k: int| 0 <= k < row.len() ==> #[trigger] row[k] < nodes.len(),
{
    let ghost all = ids_at(nodes@, selection_ids(tables@));
    let ghost child = (schema@, name@);
    let mut row: Vec<usize> = Vec::new();
    let mut d: usize = 0;
    proof {
        assert(all_deps@.take(0) =~= Seq::<TableDependency>::empty());
        assert(ints(row@) =~= Seq::<int>::empty());
    }
    while d < all_deps.len()
        invariant
            d <= all_deps.len(),
            all == ids_at(nodes@, selection_ids(tables@)),
            child == (schema@, name@),
            forall|k: int| 0 <= k < nodes.len() ==> #[trigger] nodes[k] < tables.len(),
            forall|k: int| 0 <= k < row.len() ==> #[trigger] row[k] < nodes.len(),
            ints(row@) == positions_in(all, parent_ids(all_deps@.take(d as int), child)),
        decreases all_deps.len() - d,
    {
        let dep = &all_deps[d];
        proof {
            assert(all_deps@.take(d + 1).drop_last() == all_deps@.take(d as int));
            assert(all_deps@.take(d + 1).last() == *dep);
        }
        if same_text(dep.schema.as_str(), schema) && same_text(dep.name.as_str(), name) {
            let ghost listed = listed_parents(*dep);
            let ghost before = positions_in(all, parent_ids(all_deps@.take(d as int), child));
            let mut j: usize = 0;
            proof {
                assert(listed.take(0) =~= Seq::<TableId>::empty());
                assert(before + positions_in(all, listed.take(0)) == before);
            }
            while j < dep.depends_on.len()
                invariant
                    j <= dep.depends_on.len(),
                    all == ids_at(nodes@, selection_ids(tables@)),
                    listed == listed_parents(*dep),
                    forall|k: int| 0 <= k < nodes.len() ==> #[trigger] nodes[k] < tables.len(),
                    forall|k: int| 0 <= k < row.len() ==> #[trigger] row[k] < nodes.len(),
                    ints(row@) == before + positions_in(all, listed.take(j as int)),
                decreases dep.depends_on.len() - j,
            {
                let parent = &dep.depends_on[j];
                proof {
                    assert(listed.take(j + 1).drop_last() == listed.take(j as int));
                    assert(listed.take(j + 1).last() == (parent.0@, parent.1@));
                }
                match find_node(tables, nodes, parent.0.as_str(), parent.1.as_str()) {
                    Some(p) => {
                        proof {
                            lemma_ints_push(row@, p);
                        }
                        row.push(p);
                    },
                    None => {},
                }
                j = j + 1;
            }
            proof {
                assert(listed.take(listed.len() as int) == listed);
                lemma_positions_in_concat(
                    all,
                    parent_ids(all_deps@.take(d as int), child),
                    listed,
                );
            }
        }
        d = d + 1;
    }
    proof {
        assert(all_deps@.take(all_deps@.len() as int) == all_deps@);
    }
    row
}

/// The graph of the selection: for each of `nodes`, the places of the tables
/// among `nodes` that it depends on.
fn build_graph(tables: &Vec<TableSelection>, nodes: &Vec<usize>, all_deps: &Vec<TableDependency>) -> (graph:
    Vec<Vec<usize>>)
    requires
        forall|k: int| 0 <= k < nodes.len() ==> #[trigger] nodes[k] < tables.len(),
    ensures
        graph.len() == nodes.len(),
        graph_view(graph@) == graph_of(ids_at(nodes@, selection_ids(tables@)), all_deps@),
        graph_in_range(graph_view(graph@)),
{
    let ghost all = ids_at(nodes@, selection_ids(tables@));
    let mut graph: Vec<Vec<usize>> = Vec::new();
    let mut c: usize = 0;
    while c < nodes.len()
        invariant
            c <= nodes.len(),
            graph.len() == c,
            all == ids_at(nodes@, selection_ids(tables@)),
            forall|k: int| 0 <= k < nodes.len() ==> #[trigger] nodes[k] < tables.len(),
            forall|x: int|
                0 <= x < c ==> ints(#[trigger] graph@[x]@) == positions_in(
                    all,
                    parent_ids(all_deps@, all[x]),
                ),
            forall|x: int, k: int|
                0 <= x < c && 0 <= k < graph@[x].len() ==> #[trigger] graph@[x]@[k] < nodes.len(),
        decreases nodes.len() - c,
    {
        let t = &tables[nodes[c]];
        let row = parents_of(tables, nodes, all_deps, t.schema.as_str(), t.name.as_str());
        graph.push(row);
        c = c + 1;
    }
    proof {
        assert(graph_view(graph@) =~= graph_of(all, all_deps@));
        assert forall|x: int, k: int|
            0 <= x < graph_view(graph@).len() && 0 <= k < graph_view(
                graph@,
            )[x].len() implies 0 <= #[trigger] graph_view(graph@)[x][k] < graph_view(
            graph@,
        ).len() by {
            assert(graph@[x]@[k] < nodes.len());
        }
    }
    graph
}

/// Visits `node`: unless it is done or its visit is under way, the tables it
/// depends on are visited first, and then it joins `order`.
fn visit(
    graph: &Vec<Vec<usize>>,
    node: usize,
    on_path: &mut Vec<bool>,
    visited: &mut Vec<bool>,
    order: &mut Vec<usize>,
    Ghost(room): Ghost<nat>,
    Ghost(path): Ghost<Seq<int>>,
)
    requires
        node < graph.len(),
        graph_in_range(graph_view(graph@)),
        old(on_path).len() == graph.len(),
        old(visited).len() == graph.len(),
        flags_match(old(on_path)@, path),
        flags_match(old(visited)@, ints(old(order)@)),
        path.no_duplicates(),
        all_below(path, graph.len() as int),
        room + path.len() >= graph.len(),
    ensures
        final(on_path)@ == old(on_path)@,
        final(visited).len() == graph.len(),
        flags_match(final(visited)@, ints(final(order)@)),
        ints(final(order)@) == visit_order(
            graph_view(graph@),
            room,
            node as int,
            path,
            ints(old(order)@),
        ),
    decreases room,
{
    let ghost g = graph_view(graph@);
    let ghost done0 = ints(order@);
    if visited[node] || on_path[node] {
        return ;
    }
    proof {
        // The path with `node` on it is still a list of distinct tables, so
        // it has not outgrown the graph: there is room for the visit.
        let longer = path.push(node as int);
        assert(longer.no_duplicates());
        assert(all_below(longer, graph.len() as int));
        lemma_distinct_places_are_few(longer, graph.len() as int);
    }
    let ghost before = on_path@;
    on_path.set(node, true);
    let ghost longer = path.push(node as int);
    proof {
        assert forall|i: int| 0 <= i < on_path@.len() implies #[trigger] on_path@[i]
            == longer.contains(i) by {
            if i == node {
                assert(longer[path.len() as int] == i);
            } else {
                if path.contains(i) {
                    let k = choose|k: int| 0 <= k < path.len() && path[k] == i;
                    assert(longer[k] == i);
                }
            }
        }
    }
    let parents = &graph[node];
    let ghost ps = ints(parents@);
    proof {
        assert(g[node as int] == ps);
        assert(ps.skip(0) == ps);
    }
    let mut k: usize = 0;
    while k < parents.len()
        invariant
            k <= parents.len(),
            node < graph.len(),
            g == graph_view(graph@),
            ps == ints(parents@),
            parents == &graph[node as int],
            graph_in_range(g),
            on_path.len() == graph.len(),
            visited.len() == graph.len(),
            flags_match(on_path@, longer),
            flags_match(visited@, ints(order@)),
            longer.no_duplicates(),
            all_below(longer, graph.len() as int),
            room >= 1,
            (room - 1) + longer.len() >= graph.len(),
            before.len() == graph.len(),
            on_path@ == before.update(node as int, true),
            visit_each(g, (room - 1) as nat, ps, longer, done0) == visit_each(
                g,
                (room - 1) as nat,
                ps.skip(k as int),
                longer,
                ints(order@),
            ),
        decreases parents.len() - k,
    {
        let parent = parents[k];
        proof {
            assert(ps.skip(k as int)[0] == parent as int);
            assert(ps.skip(k as int).drop_first() == ps.skip(k + 1));
            assert(g[node as int][k as int] == parent as int);
        }
        visit(graph, parent, on_path, visited, order, Ghost((room - 1) as nat), Ghost(longer));
        k = k + 1;
    }
    on_path.set(node, false);
    visited.set(node, true);
    proof {
        lemma_ints_push(order@, node);
        assert(on_path@ =~= before);
    }
    let ghost done1 = ints(order@);
    order.push(node);
    proof {
        let done2 = ints(order@);
        assert(done2 == done1.push(node as int));
        assert forall|i: int| 0 <= i < visited@.len() implies #[trigger] visited@[i]
            == done2.contains(i) by {
            if i == node {
                assert(done2[done1.len() as int] == i);
            } else {
                if done1.contains(i) {
                    let j = choose|j: int| 0 <= j < done1.len() && done1[j] == i;
                    assert(done2[j] == i);
                }
            }
        }
    }
}

/// The tables of the selection in the order in which they are to be
/// transferred: each table once, a table after the selected tables that it
/// depends on, and tables that do not depend on each other in the order of
/// the dictionary. Where the dependencies run in a circle, the edge that
/// closes the circle is dropped.
pub fn sort_tables_by_dependency(tables: Vec<TableSelection>, all_deps: Vec<TableDependency>) -> (sorted:
    Vec<TableSelection>)
    ensures
        selection_ids(sorted@) == dependency_order(selection_ids(tables@), all_deps@),
        selection_ids(sorted@).no_duplicates(),
        forall|t: TableId|
            selection_ids(sorted@).contains(t) <==> selection_ids(tables@).contains(t),
        acyclic(selection_ids(tables@), all_deps@) ==> forall|i: int, j: int|
            0 <= i < sorted@.len() && 0 <= j < sorted@.len() && depends_on(
                selection_ids(tables@),
                all_deps@,
                #[trigger] selection_ids(sorted@)[i],
                #[trigger] selection_ids(sorted@)[j],
            ) ==> j < i,
{
    let ghost ids = selection_ids(tables@);
    let nodes = sort_nodes(&tables);
    let graph = build_graph(&tables, &nodes, &all_deps);
    let ghost g = graph_view(graph@);
    let n = nodes.len();
    let mut on_path: Vec<bool> = Vec::new();
    let mut visited: Vec<bool> = Vec::new();
    let mut f: usize = 0;
    while f < n
        invariant
            f <= n,
            on_path.len() == f,
            visited.len() == f,
            forall|i: int| 0 <= i < f ==> !#[trigger] on_path@[i],
            forall|i: int| 0 <= i < f ==> !#[trigger] visited@[i],
        decreases n - f,
    {
        on_path.push(false);
        visited.push(false);
        f = f + 1;
    }
    let mut order: Vec<usize> = Vec::new();
    let mut r: usize = 0;
    proof {
        assert(ints(order@) =~= Seq::<int>::empty());
    }
    while r < n
        invariant
            r <= n,
            n == graph.len(),
            g == graph_view(graph@),
            graph_in_range(g),
            on_path.len() == n,
            visited.len() == n,
            flags_match(on_path@, Seq::<int>::empty()),
            flags_match(visited@, ints(order@)),
            ints(order@) == visit_roots(g, r as int),
        decreases n - r,
    {
        visit(&graph, r, &mut on_path, &mut visited, &mut order, Ghost(n as nat), Ghost(Seq::empty()));
        r = r + 1;
    }
    let ghost done = ints(order@);
    let ghost all = ids_at(nodes@, ids);
    proof {
        lemma_visit_roots_in_range(g, n as int);
    }
    let mut sorted: Vec<TableSelection> = Vec::new();
    let mut i: usize = 0;
    while i < order.len()
        invariant
            i <= order.len(),
            ids == selection_ids(tables@),
            all == ids_at(nodes@, ids),
            done == ints(order@),
            all_below(done, nodes.len() as int),
            forall|k: int| 0 <= k < nodes.len() ==> #[trigger] nodes[k] < tables.len(),
            sorted.len() == i,
            forall|k: int|
                0 <= k < i ==> (#[trigger] sorted@[k]).schema@ == all[done[k]].0 && sorted@[k].name@
                    == all[done[k]].1,
        decreases order.len() - i,
    {
        proof {
            assert(0 <= done[i as int] < nodes.len());
        }
        let t = &tables[nodes[order[i]]];
        sorted.push(TableSelection { schema: t.schema.clone(), name: t.name.clone() });
        i = i + 1;
    }
    proof {
        assert(selection_ids(sorted@) =~= dependency_order(ids, all_deps@));
        lemma_each_table_once(ids, all_deps@);
        if acyclic(ids, all_deps@) {
            let placed = selection_ids(sorted@);
            assert forall|i: int, j: int|
                0 <= i < sorted@.len() && 0 <= j < sorted@.len() && depends_on(
                    ids,
                    all_deps@,
                    #[trigger] placed[i],
                    #[trigger] placed[j],
                ) implies j < i by {
                lemma_dependencies_first(ids, all_deps@, i, j);
            }
        }
    }
    sorted
}

/// A visit leaves only places of the graph among the tables done.
proof fn lemma_visit_in_range(
    graph: Seq<Seq<int>>,
    room: nat,
    node: int,
    path: Seq<int>,
    done: Seq<int>,
)
    requires
        graph_in_range(graph),
        0 <= node < graph.len(),
        all_below(done, graph.len() as int),
    ensures
        all_below(visit_order(graph, room, node, path, done), graph.len() as int),
    decreases room, 0nat,
{
    if room == 0 || done.contains(node) || path.contains(node) {
    } else {
        assert forall|k: int| 0 <= k < graph[node].len() implies 0 <= #[trigger] graph[node][k]
            < graph.len() by {}
        lemma_each_in_range(graph, (room - 1) as nat, graph[node], path.push(node), done);
    }
}

/// A visit to each of a list of places of the graph leaves only places of
/// the graph among the tables done.
proof fn lemma_each_in_range(
    graph: Seq<Seq<int>>,
    room: nat,
    parents: Seq<int>,
    path: Seq<int>,
    done: Seq<int>,
)
    requires
        graph_in_range(graph),
        all_below(parents, graph.len() as int),
        all_below(done, graph.len() as int),
    ensures
        all_below(visit_each(graph, room, parents, path, done), graph.len() as int),
    decreases room, parents.len() + 1,
{
    if parents.len() > 0 {
        assert(0 <= parents[0] < graph.len());
        lemma_visit_in_range(graph, room, parents[0], path, done);
        assert forall|k: int| 0 <= k < parents.drop_first().len() implies 0
            <= #[trigger] parents.drop_first()[k] < graph.len() by {
            assert(parents.drop_first()[k] == parents[k + 1]);
        }
        lemma_each_in_range(
            graph,
            room,
            parents.drop_first(),
            path,
            visit_order(graph, room, parents[0], path, done),
        );
    }
}

/// The visits to the roots leave only places of the graph among the tables
/// done.
proof fn lemma_visit_roots_in_range(graph: Seq<Seq<int>>, roots: int)
    requires
        graph_in_range(graph),
        roots <= graph.len(),
    ensures
        all_below(visit_roots(graph, roots), graph.len() as int),
    decreases roots,
{
    if roots > 0 {
        lemma_visit_roots_in_range(graph, roots - 1);
        lemma_visit_in_range(
            graph,
            graph.len(),
            roots - 1,
            Seq::empty(),
            visit_roots(graph, roots - 1),
        );
    }
}

} // verus!
