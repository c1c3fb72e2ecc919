//! From the foreign keys of a database to the tables that each table depends
//! on.

use crate::resolver::{dependent_id, listed_parents, TableId};
use crate::schema::TableDependency;
use crate::text::same_text;
use vstd::prelude::*;
use vstd::string::*;

verus! {

/// The table that a foreign key belongs to, by schema and name.
pub open spec fn edge_child(edge: ((String, String), (String, String))) -> TableId {
    (edge.0.0@, edge.0.1@)
}

/// The table that a foreign key points to, by schema and name.
pub open spec fn edge_parent(edge: ((String, String), (String, String))) -> TableId {
    (edge.1.0@, edge.1.1@)
}

/// The tables that depend on another, each once, in the order in which
/// their first foreign key to another table is listed.
pub open spec fn dependents(edges: Seq<((String, String), (String, String))>) -> Seq<TableId>
    decreases edges.len(),
{
    if edges.len() == 0 {
        Seq::empty()
    } else {
        let before = dependents(edges.drop_last());
        let child = edge_child(edges.last());
        if child == edge_parent(edges.last()) || before.contains(child) {
            before
        } else {
            before.push(child)
        }
    }
}

/// The tables that the foreign keys of `child` point to, each once, in the
/// order in which the first key to each is listed. A key of a table to
/// itself does not count.
pub open spec fn references(edges: Seq<((String, String), (String, String))>, child: TableId) -> Seq<
    TableId,
>
    decreases edges.len(),
{
    if edges.len() == 0 {
        Seq::empty()
    } else {
        let before = references(edges.drop_last(), child);
        let parent = edge_parent(edges.last());
        if edge_child(edges.last()) == child && parent != child && !before.contains(parent) {
            before.push(parent)
        } else {
            before
        }
    }
}

/// The tables at the given places of a list of foreign keys.
pub open spec fn children_at(places: Seq<usize>, edges: Seq<((String, String), (String, String))>) -> Seq<
    TableId,
> {
    Seq::new(places.len(), |k: int| edge_child(edges[places[k] as int]))
}

fn same_table(a: &(String, String), b: &(String, String)) -> (r: bool)
    ensures
        r == ((a.0@, a.1@) == (b.0@, b.1@)),
{
    same_text(a.0.as_str(), b.0.as_str()) && same_text(a.1.as_str(), b.1.as_str())
}

fn first_keys(edges: &Vec<((String, String), (String, String))>) -> (places: Vec<usize>)
    ensures
        forall|k: int| 0 <= k < places.len() ==> #[trigger] places[k] < edges.len(),
        children_at(places@, edges@) == dependents(edges@),
{
    let mut places: Vec<usize> = Vec::new();
    let mut i: usize = 0;
    proof {
        assert(edges@.take(0) =~= Seq::<((String, String), (String, String))>::empty());
        assert(children_at(places@, edges@) =~= Seq::<TableId>::empty());
    }
    while i < edges.len()
        invariant
            i <= edges.len(),
            forall|k: int| 0 <= k < places.len() ==> #[trigger] places[k] < edges.len(),
            children_at(places@, edges@) == dependents(edges@.take(i as int)),
        decreases edges.len() - i,
    {
        let edge = &edges[i];
        let ghost before = children_at(places@, edges@);
        proof {
            assert(edges@.take(i + 1).drop_last() == edges@.take(i as int));
            assert(edges@.take(i + 1).last() == *edge);
        }
        if !same_table(&edge.0, &edge.1) {
            let mut known = false;
            let mut k: usize = 0;
            while k < places.len()
                invariant
                    k <= places.len(),
                    i < edges.len(),
                    edge == &edges[i as int],
                    before == children_at(places@, edges@),
                    forall|j: int| 0 <= j < places.len() ==> #[trigger] places[j] < edges.len(),
                    known == exists|j: int| 0 <= j < k && before[j] == edge_child(*edge),
                decreases places.len() - k,
            {
                if same_table(&edges[places[k]].0, &edge.0) {
                    known = true;
                    proof {
                        assert(before[k as int] == edge_child(*edge));
                    }
                }
                k = k + 1;
            }
            proof {
                assert(known == before.contains(edge_child(*edge)));
            }
            if !known {
                places.push(i);
                proof {
                    assert(children_at(places@, edges@) =~= before.push(edge_child(*edge)));
                }
            }
        }
        i = i + 1;
    }
    proof {
        assert(edges@.take(edges@.len() as int) == edges@);
    }
    places
}

fn references_of(edges: &Vec<((String, String), (String, String))>, child: &(String, String)) -> (parents:
    Vec<(String, String)>)
    ensures
        Seq::new(parents@.len(), |j: int| (parents@[j].0@, parents@[j].1@)) == references(
            edges@,
            (child.0@, child.1@),
        ),
{
    let mut parents: Vec<(String, String)> = Vec::new();
    let ghost id = (child.0@, child.1@);
    let mut i: usize = 0;
    proof {
        assert(edges@.take(0) =~= Seq::<((String, String), (String, String))>::empty());
        assert(Seq::new(parents@.len(), |j: int| (parents@[j].0@, parents@[j].1@)) =~= Seq::<
            TableId,
        >::empty());
    }
    while i < edges.len()
        invariant
            i <= edges.len(),
            id == (child.0@, child.1@),
            Seq::new(parents@.len(), |j: int| (parents@[j].0@, parents@[j].1@)) == references(
                edges@.take(i as int),
                id,
            ),
        decreases edges.len() - i,
    {
        let edge = &edges[i];
        let ghost before = Seq::new(parents@.len(), |j: int| (parents@[j].0@, parents@[j].1@));
        proof {
            assert(edges@.take(i + 1).drop_last() == edges@.take(i as int));
            assert(edges@.take(i + 1).last() == *edge);
        }
        if same_table(&edge.0, child) && !same_table(&edge.1, child) {
            let mut known = false;
            let mut k: usize = 0;
            while k < parents.len()
                invariant
                    k <= parents.len(),
                    i < edges.len(),
                    edge == &edges[i as int],
                    before == Seq::new(parents@.len(), |j: int| (parents@[j].0@, parents@[j].1@)),
                    known == exists|j: int| 0 <= j < k && before[j] == edge_parent(*edge),
                decreases parents.len() - k,
            {
                if same_table(&parents[k], &edge.1) {
                    known = true;
                    proof {
                        assert(before[k as int] == edge_parent(*edge));
                    }
                }
                k = k + 1;
            }
            proof {
                assert(known == before.contains(edge_parent(*edge)));
            }
            if !known {
                parents.push((edge.1.0.clone(), edge.1.1.clone()));
                proof {
                    assert(Seq::new(parents@.len(), |j: int| (parents@[j].0@, parents@[j].1@))
                        =~= before.push(edge_parent(*edge)));
                }
            }
        }
        i = i + 1;
    }
    proof {
        assert(edges@.take(edges@.len() as int) == edges@);
    }
    parents
}

/// No table depends on itself, none is listed twice among the tables that
/// another depends on, and no table has two entries.
pub proof fn lemma_dependencies_are_sets(
    edges: Seq<((String, String), (String, String))>,
    child: TableId,
)
    ensures
        dependents(edges).no_duplicates(),
        references(edges, child).no_duplicates(),
        !references(edges, child).contains(child),
    decreases edges.len(),
{
    if edges.len() > 0 {
        lemma_dependencies_are_sets(edges.drop_last(), child);
        let before = references(edges.drop_last(), child);
        let after = references(edges, child);
        if after != before {
            let parent = edge_parent(edges.last());
            assert(after == before.push(parent));
            assert forall|j: int| 0 <= j < after.len() implies after[j] != child by {
                if j < before.len() {
                    assert(before.contains(before[j]));
                }
            }
            assert forall|a: int, b: int| 0 <= a < after.len() && 0 <= b < after.len() && a
                != b implies after[a] != after[b] by {
                if a < before.len() {
                    assert(before.contains(before[a]));
                }
                if b < before.len() {
                    assert(before.contains(before[b]));
                }
            }
        }
        let first = dependents(edges.drop_last());
        let all = dependents(edges);
        if all != first {
            assert(all == first.push(edge_child(edges.last())));
            assert forall|a: int, b: int| 0 <= a < all.len() && 0 <= b < all.len() && a
                != b implies all[a] != all[b] by {
                if a < first.len() {
                    assert(first.contains(first[a]));
                }
                if b < first.len() {
                    assert(first.contains(first[b]));
                }
            }
        }
    }
}

/// The dependencies that a list of foreign keys stands for, each key given
/// as the table it belongs to and the table it points to. Every table with a
/// key to another table has one entry, which lists the tables that its keys
/// point to, each once, in the order of the keys; a key of a table to itself
/// is left out.
pub fn collect_dependencies(edges: &Vec<((String, String), (String, String))>) -> (deps: Vec<
    TableDependency,
>)
    ensures
        deps@.len() == dependents(edges@).len(),
        forall|k: int|
            0 <= k < deps@.len() ==> dependent_id(#[trigger] deps@[k]) == dependents(edges@)[k]
                && listed_parents(deps@[k]) == references(edges@, dependents(edges@)[k]),
{
    let places = first_keys(edges);
    let mut deps: Vec<TableDependency> = Vec::new();
    let mut k: usize = 0;
    while k < places.len()
        invariant
            k <= places.len(),
            deps.len() == k,
            forall|j: int| 0 <= j < places.len() ==> #[trigger] places[j] < edges.len(),
            children_at(places@, edges@) == dependents(edges@),
            forall|j: int|
                0 <= j < k ==> dependent_id(#[trigger] deps@[j]) == dependents(edges@)[j]
                    && listed_parents(deps@[j]) == references(edges@, dependents(edges@)[j]),
        decreases places.len() - k,
    {
        let child = &edges[places[k]].0;
        proof {
            assert(children_at(places@, edges@)[k as int] == (child.0@, child.1@));
        }
        let depends_on = references_of(edges, child);
        let entry = TableDependency { schema: child.0.clone(), name: child.1.clone(), depends_on };
        proof {
            assert(listed_parents(entry) =~= references(edges@, dependents(edges@)[k as int]));
        }
        deps.push(entry);
        k = k + 1;
    }
    proof {
        assert(children_at(places@, edges@).len() == places.len());
    }
    deps
}

} // verus!
