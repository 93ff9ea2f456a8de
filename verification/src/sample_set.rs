use vstd::prelude::*;

verus! {

broadcast use vstd::seq_lib::group_to_multiset_ensures;

/// A quantity delta for one sample type, as submitted by a caller: quantity
/// zero deletes the entry, a positive quantity upserts it, a negative
/// quantity is invalid input and aborts the whole batch.
#[derive(Clone, Copy, Debug, PartialEq, Eq, Structural)]
pub struct SampleSet {
    pub id: i64,
    pub qty: i64,
}

/// One stored sample-set row. A row with quantity zero must not exist: the
/// zero quantity is represented by absence.
#[derive(Clone, Copy, Debug, PartialEq, Eq, Structural)]
pub struct SampleSetRow {
    pub task_id: i64,
    pub sample_type_id: i64,
    pub qty: i64,
}

/// The composite key a stored row is addressed by.
pub open spec fn row_key(r: SampleSetRow) -> (i64, i64) {
    (r.task_id, r.sample_type_id)
}

/// No two stored rows share a composite key.
pub open spec fn unique_keys(rows: Seq<SampleSetRow>) -> bool {
    forall|i: int, j: int|
        0 <= i < j < rows.len() ==> row_key(rows[i]) != row_key(rows[j])
}

/// Every stored row carries a positive quantity.
pub open spec fn positive_qtys(rows: Seq<SampleSetRow>) -> bool {
    forall|i: int| 0 <= i < rows.len() ==> rows[i].qty > 0
}

/// The stored quantity for a composite key, read from the last row carrying
/// the key (under [`unique_keys`] there is at most one).
pub open spec fn spec_lookup(rows: Seq<SampleSetRow>, key: (i64, i64)) -> Option<i64>
    decreases rows.len(),
{
    if rows.len() == 0 {
        None
    } else if row_key(rows.last()) == key {
        Some(rows.last().qty)
    } else {
        spec_lookup(rows.drop_last(), key)
    }
}

/// The sample sets as a map from (task, sample type) to quantity.
pub open spec fn sample_map(rows: Seq<SampleSetRow>) -> Map<(i64, i64), i64> {
    Map::new(
        |key: (i64, i64)| spec_lookup(rows, key) is Some,
        |key: (i64, i64)| spec_lookup(rows, key)->0,
    )
}

/// A batch of deltas applied to the map in submitted order: quantity zero
/// removes the entry, a nonzero quantity upserts it.
pub open spec fn apply_deltas(
    m: Map<(i64, i64), i64>,
    task_id: i64,
    deltas: Seq<SampleSet>,
) -> Map<(i64, i64), i64>
    decreases deltas.len(),
{
    if deltas.len() == 0 {
        m
    } else {
        let prev = apply_deltas(m, task_id, deltas.drop_last());
        let d = deltas.last();
        if d.qty == 0 {
            prev.remove((task_id, d.id))
        } else {
            prev.insert((task_id, d.id), d.qty)
        }
    }
}

/// A key occurs in the lookup exactly when some row carries it.
pub proof fn lemma_lookup_some(rows: Seq<SampleSetRow>, key: (i64, i64))
    ensures
        (spec_lookup(rows, key) is Some) <==> exists|i: int|
            0 <= i < rows.len() && row_key(rows[i]) == key,
    decreases rows.len(),
{
    if rows.len() > 0 {
        if row_key(rows.last()) == key {
            assert(row_key(rows[rows.len() - 1]) == key);
        } else {
            lemma_lookup_some(rows.drop_last(), key);
            if exists|i: int| 0 <= i < rows.len() && row_key(rows[i]) == key {
                let i = choose|i: int| 0 <= i < rows.len() && row_key(rows[i]) == key;
                assert(i < rows.len() - 1);
                assert(row_key(rows.drop_last()[i]) == key);
            }
        }
    }
}

/// Appending a row with a fresh key inserts its entry.
pub proof fn lemma_map_push(rows: Seq<SampleSetRow>, row: SampleSetRow)
    ensures
        sample_map(rows.push(row)) == sample_map(rows).insert(row_key(row), row.qty),
{
    let pushed = rows.push(row);
    let before = sample_map(rows);
    let after = sample_map(pushed);
    assert(pushed.drop_last() =~= rows);
    assert(pushed.last() == row);
    assert forall|key: (i64, i64)|
        (after.contains_key(key) <==> before.insert(row_key(row), row.qty).contains_key(key))
            && (after.contains_key(key) ==> after[key] == before.insert(row_key(row), row.qty)[key]) by {
        assert(spec_lookup(pushed, key) == if row_key(row) == key {
            Some(row.qty)
        } else {
            spec_lookup(rows, key)
        });
    }
    assert(after =~= before.insert(row_key(row), row.qty));
}

/// Removing the row at an index removes exactly its entry.
pub proof fn lemma_lookup_remove(rows: Seq<SampleSetRow>, i: int, key: (i64, i64))
    requires
        unique_keys(rows),
        0 <= i < rows.len(),
    ensures
        spec_lookup(rows.remove(i), key) == if row_key(rows[i]) == key {
            None::<i64>
        } else {
            spec_lookup(rows, key)
        },
    decreases rows.len(),
{
    let removed = rows.remove(i);
    if i == rows.len() - 1 {
        assert(removed =~= rows.drop_last());
        if row_key(rows[i]) == key {
            lemma_lookup_some(rows.drop_last(), key);
            if exists|j: int|
                0 <= j < rows.drop_last().len() && row_key(rows.drop_last()[j]) == key {
                let j = choose|j: int|
                    0 <= j < rows.drop_last().len() && row_key(rows.drop_last()[j]) == key;
                assert(row_key(rows[j]) == row_key(rows[i]));
                assert(false);
            }
        }
    } else {
        assert(removed.last() == rows.last());
        assert(removed.drop_last() =~= rows.drop_last().remove(i));
        assert(row_key(rows.last()) != row_key(rows[i]));
        lemma_lookup_remove(rows.drop_last(), i, key);
        if row_key(rows.last()) == key {
        } else {
            assert(spec_lookup(removed, key) == spec_lookup(removed.drop_last(), key));
        }
    }
}

/// The map reading of [`lemma_lookup_remove`].
pub proof fn lemma_map_remove(rows: Seq<SampleSetRow>, i: int)
    requires
        unique_keys(rows),
        0 <= i < rows.len(),
    ensures
        sample_map(rows.remove(i)) == sample_map(rows).remove(row_key(rows[i])),
{
    let removed = rows.remove(i);
    let after = sample_map(removed);
    let target = sample_map(rows).remove(row_key(rows[i]));
    assert forall|key: (i64, i64)| #![trigger spec_lookup(removed, key)]
        spec_lookup(removed, key) == (if row_key(rows[i]) == key {
            None::<i64>
        } else {
            spec_lookup(rows, key)
        }) by {
        lemma_lookup_remove(rows, i, key);
    }
    assert(after =~= target);
}

/// The sample-set rows left when a whole task is deleted, in storage order.
pub open spec fn sample_rows_without_task(rows: Seq<SampleSetRow>, task_id: i64) -> Seq<
    SampleSetRow,
>
    decreases rows.len(),
{
    if rows.len() == 0 {
        Seq::empty()
    } else {
        let rest = sample_rows_without_task(rows.drop_last(), task_id);
        if rows.last().task_id != task_id {
            rest.push(rows.last())
        } else {
            rest
        }
    }
}

/// A task's stored sample set read back as (type, quantity) entries, in
/// storage order.
pub open spec fn entries_for_task(rows: Seq<SampleSetRow>, task_id: i64) -> Seq<SampleSet>
    decreases rows.len(),
{
    if rows.len() == 0 {
        Seq::empty()
    } else {
        let rest = entries_for_task(rows.drop_last(), task_id);
        if rows.last().task_id == task_id {
            rest.push(SampleSet { id: rows.last().sample_type_id, qty: rows.last().qty })
        } else {
            rest
        }
    }
}

/// Ascending by sample-type identifier.
pub open spec fn id_sorted(entries: Seq<SampleSet>) -> bool {
    forall|i: int, j: int| 0 <= i <= j < entries.len() ==> entries[i].id <= entries[j].id
}

/// Sorts a task's sample-set entries ascending by sample-type identifier:
/// the result holds exactly the given entries.
pub(crate) fn sort_by_id(v: Vec<SampleSet>) -> (r: Vec<SampleSet>)
    ensures
        id_sorted(r@),
        r@.to_multiset() == v@.to_multiset(),
{
    let mut out: Vec<SampleSet> = Vec::new();
    proof {
        assert(v@.take(0) =~= Seq::<SampleSet>::empty());
        assert(out@.to_multiset() =~= v@.take(0).to_multiset());
    }
    let mut k: usize = 0;
    while k < v.len()
        invariant
            k <= v@.len(),
            id_sorted(out@),
            out@.to_multiset() == v@.take(k as int).to_multiset(),
        decreases v@.len() - k,
    {
        let entry = v[k];
        let mut pos: usize = out.len();
        while pos > 0 && out[pos - 1].id > entry.id
            invariant
                pos <= out@.len(),
                forall|i: int| pos <= i < out@.len() ==> out@[i].id > entry.id,
            decreases pos,
        {
            pos = pos - 1;
        }
        proof {
            out@.insert_ensures(pos as int, entry);
            assert(v@.take(k as int + 1) =~= v@.take(k as int).push(v@[k as int]));
        }
        out.insert(pos, entry);
        k += 1;
    }
    proof {
        assert(v@.take(v@.len() as int) =~= v@);
    }
    out
}

/// The last delta of a batch that addresses a sample type, if any.
pub open spec fn last_delta(deltas: Seq<SampleSet>, type_id: i64) -> Option<SampleSet>
    decreases deltas.len(),
{
    if deltas.len() == 0 {
        None
    } else if deltas.last().id == type_id {
        Some(deltas.last())
    } else {
        last_delta(deltas.drop_last(), type_id)
    }
}

/// What a reconciliation batch leaves at each key: the key's last delta
/// decides alone (zero removes, nonzero overwrites); a key no delta
/// addresses keeps its prior state.
pub proof fn lemma_apply_deltas_at(
    m: Map<(i64, i64), i64>,
    task_id: i64,
    deltas: Seq<SampleSet>,
    key: (i64, i64),
)
    ensures
        match last_delta(deltas, key.1) {
            Some(d) if key.0 == task_id => {
                &&& apply_deltas(m, task_id, deltas).contains_key(key) == (d.qty != 0)
                &&& (d.qty != 0 ==> apply_deltas(m, task_id, deltas)[key] == d.qty)
            },
            _ => {
                &&& apply_deltas(m, task_id, deltas).contains_key(key) == m.contains_key(key)
                &&& (m.contains_key(key) ==> apply_deltas(m, task_id, deltas)[key] == m[key])
            },
        },
    decreases deltas.len(),
{
    if deltas.len() > 0 {
        lemma_apply_deltas_at(m, task_id, deltas.drop_last(), key);
    }
}

/// Reconciling the same batch twice leaves the sample sets exactly as
/// reconciling it once.
pub proof fn lemma_reconcile_idempotent(
    m: Map<(i64, i64), i64>,
    task_id: i64,
    deltas: Seq<SampleSet>,
)
    ensures
        apply_deltas(apply_deltas(m, task_id, deltas), task_id, deltas) == apply_deltas(
            m,
            task_id,
            deltas,
        ),
{
    let once = apply_deltas(m, task_id, deltas);
    let twice = apply_deltas(once, task_id, deltas);
    assert forall|key: (i64, i64)| #![trigger twice.dom().contains(key)]
        (twice.dom().contains(key) <==> once.dom().contains(key)) && (twice.dom().contains(key)
            ==> twice[key] == once[key]) by {
        lemma_apply_deltas_at(m, task_id, deltas, key);
        lemma_apply_deltas_at(once, task_id, deltas, key);
    }
    assert(twice =~= once);
}

/// A zero-quantity delta removes exactly its own entry; when the entry is
/// absent it is a no-op.
pub proof fn lemma_zero_delta(m: Map<(i64, i64), i64>, task_id: i64, type_id: i64)
    ensures
        apply_deltas(m, task_id, seq![SampleSet { id: type_id, qty: 0 }]) == m.remove(
            (task_id, type_id),
        ),
        !m.contains_key((task_id, type_id)) ==> apply_deltas(
            m,
            task_id,
            seq![SampleSet { id: type_id, qty: 0 }],
        ) == m,
{
    let batch = seq![SampleSet { id: type_id, qty: 0 }];
    assert(batch.drop_last() =~= Seq::<SampleSet>::empty());
    assert(apply_deltas(m, task_id, batch.drop_last()) == m);
    assert(batch.last() == SampleSet { id: type_id, qty: 0 });
    assert(apply_deltas(m, task_id, batch) == m.remove((task_id, type_id)));
    if !m.contains_key((task_id, type_id)) {
        assert(m.remove((task_id, type_id)) =~= m);
    }
}

} // verus!
