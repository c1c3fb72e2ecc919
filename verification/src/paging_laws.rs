//! What holds of the batches of a table with a key, while the source stays
//! as it is: the queries by key give the rows batch by batch, each row once,
//! and the number of queries is known. And what holds of a target that
//! passes over the rows whose key it has: the batches bring it every row,
//! and bringing them again changes nothing.

use crate::transfer::is_last_batch;
use vstd::prelude::*;

verus! {

/// The key `a` comes before the key `b`: the keys are compared column by
/// column, and the first column in which they differ decides.
pub open spec fn key_before(a: Seq<int>, b: Seq<int>) -> bool
    decreases a.len(),
{
    if a.len() == 0 || b.len() == 0 {
        false
    } else if a[0] != b[0] {
        a[0] < b[0]
    } else {
        key_before(a.skip(1), b.skip(1))
    }
}

/// The keys stand in ascending order, none of them twice.
pub open spec fn ascending(keys: Seq<Seq<int>>) -> bool {
    forall|i: int, j: int| 0 <= i < j < keys.len() ==> key_before(keys[i], keys[j])
}

/// The keys that a query by key finds: all of them where no key was seen
/// yet, else those beyond the last key that was seen, in order.
pub open spec fn keys_beyond(keys: Seq<Seq<int>>, last_key: Option<Seq<int>>) -> Seq<Seq<int>>
    decreases keys.len(),
{
    if keys.len() == 0 {
        Seq::empty()
    } else if last_key is None || key_before(last_key->0, keys.last()) {
        keys_beyond(keys.drop_last(), last_key).push(keys.last())
    } else {
        keys_beyond(keys.drop_last(), last_key)
    }
}

/// The first `limit` of `rows`, or all of them where they are fewer.
pub open spec fn first_rows(rows: Seq<Seq<int>>, limit: nat) -> Seq<Seq<int>> {
    if rows.len() <= limit {
        rows
    } else {
        rows.take(limit as int)
    }
}

/// The batch that a query by key brings: the first `limit` keys beyond the
/// last key that was seen.
pub open spec fn batch_beyond(keys: Seq<Seq<int>>, last_key: Option<Seq<int>>, limit: nat) -> Seq<
    Seq<int>,
> {
    first_rows(keys_beyond(keys, last_key), limit)
}

/// The key that a transfer has seen last once `start` rows have gone over:
/// that of the last of them.
pub open spec fn key_seen(keys: Seq<Seq<int>>, start: int) -> Option<Seq<int>> {
    if start <= 0 {
        None
    } else {
        Some(keys[start - 1])
    }
}

/// The batches that a transfer fetches once `start` rows have gone over:
/// one batch after the other, up to and with the first that ends the table.
pub open spec fn batches_from(keys: Seq<Seq<int>>, start: nat, limit: nat) -> Seq<Seq<Seq<int>>>
    decreases keys.len() - start,
{
    let batch = first_rows(keys.skip(start as int), limit);
    if start >= keys.len() || is_last_batch(batch.len(), limit) {
        seq![batch]
    } else {
        seq![batch] + batches_from(keys, start + batch.len(), limit)
    }
}

/// The rows of a list of batches, one batch after the other.
pub open spec fn all_rows(batches: Seq<Seq<Seq<int>>>) -> Seq<Seq<int>>
    decreases batches.len(),
{
    if batches.len() == 0 {
        Seq::empty()
    } else {
        batches[0] + all_rows(batches.drop_first())
    }
}

/// The least number of batches of `limit` rows that hold `rows` rows.
pub open spec fn batches_needed(rows: nat, limit: nat) -> int {
    (rows + limit - 1) / (limit as int)
}

/// No key comes before itself, and of two keys at most one comes before the
/// other.
pub proof fn lemma_key_order(a: Seq<int>, b: Seq<int>)
    ensures
        !key_before(a, a),
        key_before(a, b) ==> !key_before(b, a),
    decreases a.len(),
{
    if a.len() > 0 {
        lemma_key_order(a.skip(1), b.skip(1));
        lemma_key_order(a.skip(1), a.skip(1));
    }
}

/// A query by key finds the rows that have not gone over: with the keys in
/// ascending order, the keys beyond the key of row `start - 1` are the keys
/// from row `start` on, and with no key seen they are all keys.
pub proof fn lemma_query_by_key_finds_the_rest(keys: Seq<Seq<int>>, start: int)
    requires
        ascending(keys),
        0 <= start <= keys.len(),
    ensures
        keys_beyond(keys, key_seen(keys, start)) == keys.skip(start),
    decreases keys.len(),
{
    let last_key = key_seen(keys, start);
    if keys.len() == 0 {
        assert(keys.skip(start) =~= Seq::<Seq<int>>::empty());
    } else if start == keys.len() {
        lemma_nothing_beyond_the_end(keys, keys.len() as int);
        assert(keys.take(keys.len() as int) == keys);
        assert(keys.skip(start) =~= Seq::<Seq<int>>::empty());
    } else {
        let front = keys.drop_last();
        assert(ascending(front)) by {
            assert forall|i: int, j: int| 0 <= i < j < front.len() implies key_before(
                front[i],
                front[j],
            ) by {
                assert(front[i] == keys[i] && front[j] == keys[j]);
            }
        }
        if start > 0 {
            assert(front[start - 1] == keys[start - 1]);
            assert(key_before(keys[start - 1], keys[keys.len() - 1]));
        }
        assert(key_seen(front, start) == last_key);
        lemma_query_by_key_finds_the_rest(front, start);
        assert(keys.skip(start) =~= front.skip(start).push(keys.last()));
    }
}

proof fn lemma_nothing_beyond_the_end(keys: Seq<Seq<int>>, n: int)
    requires
        ascending(keys),
        0 < n <= keys.len(),
    ensures
        keys_beyond(keys.take(n), Some(keys[keys.len() - 1])) == Seq::<Seq<int>>::empty(),
    decreases n,
{
    let part = keys.take(n);
    let end = Some(keys[keys.len() - 1]);
    assert(part.last() == keys[n - 1]);
    assert(part.drop_last() == keys.take(n - 1));
    assert(!key_before(keys[keys.len() - 1], keys[n - 1])) by {
        lemma_key_order(keys[n - 1], keys[keys.len() - 1]);
        if n < keys.len() {
            assert(key_before(keys[n - 1], keys[keys.len() - 1]));
        }
    }
    assert(keys_beyond(part, end) == keys_beyond(keys.take(n - 1), end));
    if n > 1 {
        lemma_nothing_beyond_the_end(keys, n - 1);
    } else {
        assert(keys.take(0).len() == 0);
    }
}

/// The batch that the query by key brings once `start` rows have gone over
/// is the batch that the transfer counts on: the next rows of the table, a
/// batch of them at most.
pub proof fn lemma_the_query_brings_the_next_batch(keys: Seq<Seq<int>>, start: nat, limit: nat)
    requires
        ascending(keys),
        start <= keys.len(),
    ensures
        batch_beyond(keys, key_seen(keys, start as int), limit) == first_rows(
            keys.skip(start as int),
            limit,
        ),
        batches_from(keys, start, limit)[0] == batch_beyond(
            keys,
            key_seen(keys, start as int),
            limit,
        ),
{
    lemma_query_by_key_finds_the_rest(keys, start as int);
}

/// The batches of a table hold its rows, each once and in order, and their
/// number is one more than the number of full batches among the rows. Where
/// the rows do not fill their last batch, that is the least number of
/// batches that hold them.
pub proof fn lemma_batches_cover_the_table(keys: Seq<Seq<int>>, limit: nat)
    requires
        limit > 0,
    ensures
        all_rows(batches_from(keys, 0, limit)) == keys,
        batches_from(keys, 0, limit).len() == keys.len() / limit + 1,
        keys.len() % limit != 0 ==> batches_from(keys, 0, limit).len() == batches_needed(
            keys.len(),
            limit,
        ),
{
    lemma_batches_from(keys, 0, limit);
    assert(keys.skip(0) == keys);
    let n = keys.len() as int;
    let b = limit as int;
    if n % b != 0 {
        assert((n + b - 1) / b == n / b + 1) by (nonlinear_arith)
            requires
                b > 0,
                n >= 0,
                n % b != 0,
        ;
    }
}

/// The keys of a target with a unique key, after a batch was inserted with
/// conflicts passed over: the keys it had and the keys of the batch.
pub open spec fn keys_after_insert(target: Set<Seq<int>>, batch: Seq<Seq<int>>) -> Set<Seq<int>> {
    target.union(batch.to_set())
}

/// The keys of such a target after one batch after the other was inserted.
pub open spec fn keys_after_batches(target: Set<Seq<int>>, batches: Seq<Seq<Seq<int>>>) -> Set<
    Seq<int>,
>
    decreases batches.len(),
{
    if batches.len() == 0 {
        target
    } else {
        keys_after_batches(keys_after_insert(target, batches[0]), batches.drop_first())
    }
}

/// The batches of a table bring a target with a unique key every row of the
/// table; and a target that has all the rows already is left as it is.
pub proof fn lemma_inserting_again_changes_nothing(
    keys: Seq<Seq<int>>,
    limit: nat,
    target: Set<Seq<int>>,
)
    requires
        limit > 0,
    ensures
        keys_after_batches(target, batches_from(keys, 0, limit)) == target.union(keys.to_set()),
        keys.to_set().subset_of(target) ==> keys_after_batches(
            target,
            batches_from(keys, 0, limit),
        ) == target,
{
    lemma_batches_cover_the_table(keys, limit);
    lemma_keys_after_batches(target, batches_from(keys, 0, limit));
    if keys.to_set().subset_of(target) {
        assert(target.union(keys.to_set()) =~= target);
    }
}

proof fn lemma_keys_after_batches(target: Set<Seq<int>>, batches: Seq<Seq<Seq<int>>>)
    ensures
        keys_after_batches(target, batches) == target.union(all_rows(batches).to_set()),
    decreases batches.len(),
{
    if batches.len() == 0 {
        assert(all_rows(batches).to_set() =~= Set::<Seq<int>>::empty());
        assert(target.union(Set::<Seq<int>>::empty()) =~= target);
    } else {
        let first = batches[0];
        let rest = batches.drop_first();
        lemma_keys_after_batches(keys_after_insert(target, first), rest);
        vstd::seq_lib::seq_to_set_distributes_over_add(first, all_rows(rest));
        assert(target.union(first.to_set()).union(all_rows(rest).to_set()) =~= target.union(
            first.to_set().union(all_rows(rest).to_set()),
        ));
    }
}

proof fn lemma_batches_from(keys: Seq<Seq<int>>, start: nat, limit: nat)
    requires
        limit > 0,
        start <= keys.len(),
    ensures
        all_rows(batches_from(keys, start, limit)) == keys.skip(start as int),
        batches_from(keys, start, limit).len() == (keys.len() - start) / (limit as int) + 1,
    decreases keys.len() - start,
{
    let rest = keys.skip(start as int);
    let batch = first_rows(rest, limit);
    let left = keys.len() - start;
    let b = limit as int;
    let got = batches_from(keys, start, limit);
    if start >= keys.len() || is_last_batch(batch.len(), limit) {
        assert(got == seq![batch]);
        assert(got[0] == batch);
        assert(got.drop_first().len() == 0);
        assert(all_rows(got.drop_first()) =~= Seq::<Seq<int>>::empty());
        assert(all_rows(got) =~= batch);
        assert(batch == rest);
        assert(left / b == 0) by (nonlinear_arith)
            requires
                0 <= left < b,
        ;
    } else {
        assert(batch.len() == limit);
        let next = (start + limit) as nat;
        lemma_batches_from(keys, next, limit);
        let tail = batches_from(keys, next, limit);
        assert(got == seq![batch] + tail);
        assert(got[0] == batch);
        assert(got.drop_first() =~= tail);
        assert(batch + keys.skip(next as int) =~= rest);
        assert((left - b) / b + 1 == left / b) by (nonlinear_arith)
            requires
                b > 0,
                left >= b,
        ;
    }
}

} // verus!
