use vstd::prelude::*;

verus! {

broadcast use vstd::seq_lib::group_to_multiset_ensures;

/// One timestamped multi-channel reading from a field instrument, tied to a
/// task. The timestamp is held as milliseconds of the local wall-clock
/// reading; each numeric channel is held as its IEEE double-precision bit
/// pattern, so no lossy transform is applied on the way through the store.
/// An absent optional channel is `None`, never zero.
#[derive(Clone, Copy, Debug, PartialEq)]
pub struct SensorRecord {
    pub task_id: i64,
    pub datetime: i64,
    pub cndct: u64,
    pub temp_internal: u64,
    pub spcndct: u64,
    pub sa: Option<u64>,
    pub resis: Option<u64>,
    pub wtr_d: Option<u64>,
    pub tds: Option<u64>,
    pub turbidity: Option<u64>,
    pub ph: u64,
    pub ph_mv: Option<u64>,
    pub orp: u64,
    pub do_con: u64,
    pub do_sat: u64,
    pub ppo2: Option<u64>,
    pub temp_sensor: Option<u64>,
    pub v: Option<u64>,
    pub batt: Option<i64>,
    pub pres_baro: Option<u64>,
    pub pres: Option<u64>,
    pub depth: Option<u64>,
}

/// The stored rows that belong to a task, in storage order.
pub open spec fn rows_for_task(rows: Seq<SensorRecord>, task_id: i64) -> Seq<SensorRecord>
    decreases rows.len(),
{
    if rows.len() == 0 {
        Seq::empty()
    } else {
        let rest = rows_for_task(rows.drop_last(), task_id);
        if rows.last().task_id == task_id {
            rest.push(rows.last())
        } else {
            rest
        }
    }
}

/// The stored rows left when a task's rows are cleared, in storage order.
pub open spec fn rows_without_task(rows: Seq<SensorRecord>, task_id: i64) -> Seq<SensorRecord>
    decreases rows.len(),
{
    if rows.len() == 0 {
        Seq::empty()
    } else {
        let rest = rows_without_task(rows.drop_last(), task_id);
        if rows.last().task_id != task_id {
            rest.push(rows.last())
        } else {
            rest
        }
    }
}

/// Ascending by timestamp.
pub open spec fn time_sorted(rows: Seq<SensorRecord>) -> bool {
    forall|i: int, j: int| 0 <= i <= j < rows.len() ==> rows[i].datetime <= rows[j].datetime
}

/// Clearing a task's rows leaves every row of every other task, in order,
/// and nothing else; a task with no rows is a no-op.
pub proof fn lemma_rows_without(rows: Seq<SensorRecord>, task_id: i64)
    ensures
        rows_for_task(rows, task_id).len() == 0 ==> rows_without_task(rows, task_id) == rows,
        rows_for_task(rows_without_task(rows, task_id), task_id) == Seq::<SensorRecord>::empty(),
        forall|t: i64|
            t != task_id ==> #[trigger] rows_for_task(rows_without_task(rows, task_id), t)
                == rows_for_task(rows, t),
    decreases rows.len(),
{
    if rows.len() > 0 {
        lemma_rows_without(rows.drop_last(), task_id);
        if rows.last().task_id != task_id {
            let shorter = rows_without_task(rows.drop_last(), task_id);
            assert(rows_without_task(rows, task_id) == shorter.push(rows.last()));
            assert(shorter.push(rows.last()).drop_last() =~= shorter);
            if rows_for_task(rows, task_id).len() == 0 {
                assert(rows.drop_last().push(rows.last()) =~= rows);
            }
            assert forall|t: i64| t != task_id implies #[trigger] rows_for_task(
                rows_without_task(rows, task_id),
                t,
            ) == rows_for_task(rows, t) by {
                lemma_rows_for_push(shorter, rows.last(), t);
                assert(rows.drop_last().push(rows.last()) =~= rows);
                lemma_rows_for_push(rows.drop_last(), rows.last(), t);
            }
        } else {
            assert forall|t: i64| t != task_id implies #[trigger] rows_for_task(
                rows_without_task(rows, task_id),
                t,
            ) == rows_for_task(rows, t) by {
                assert(rows.drop_last().push(rows.last()) =~= rows);
                lemma_rows_for_push(rows.drop_last(), rows.last(), t);
            }
        }
    }
}

/// Appending one row extends exactly its own task's selection.
pub proof fn lemma_rows_for_push(rows: Seq<SensorRecord>, row: SensorRecord, task_id: i64)
    ensures
        rows_for_task(rows.push(row), task_id) == if row.task_id == task_id {
            rows_for_task(rows, task_id).push(row)
        } else {
            rows_for_task(rows, task_id)
        },
{
    assert(rows.push(row).drop_last() =~= rows);
    assert(rows.push(row).last() == row);
}

/// Appending a whole batch for one task appends it, in order, to that task's
/// selection, and leaves every other task's selection unchanged.
pub proof fn lemma_rows_for_append(rows: Seq<SensorRecord>, batch: Seq<SensorRecord>, task_id: i64)
    requires
        forall|i: int| 0 <= i < batch.len() ==> batch[i].task_id == task_id,
    ensures
        rows_for_task(rows + batch, task_id) == rows_for_task(rows, task_id) + batch,
        forall|t: i64|
            t != task_id ==> #[trigger] rows_for_task(rows + batch, t) == rows_for_task(rows, t),
    decreases batch.len(),
{
    if batch.len() == 0 {
        assert(rows + batch =~= rows);
        assert(rows_for_task(rows, task_id) + batch =~= rows_for_task(rows, task_id));
    } else {
        lemma_rows_for_append(rows, batch.drop_last(), task_id);
        assert(rows + batch =~= (rows + batch.drop_last()).push(batch.last()));
        lemma_rows_for_push(rows + batch.drop_last(), batch.last(), task_id);
        assert((rows_for_task(rows, task_id) + batch.drop_last()).push(batch.last())
            =~= rows_for_task(rows, task_id) + batch);
        assert forall|t: i64| t != task_id implies #[trigger] rows_for_task(rows + batch, t)
            == rows_for_task(rows, t) by {
            lemma_rows_for_push(rows + batch.drop_last(), batch.last(), t);
        }
    }
}

/// Sorts a task's rows ascending by timestamp: the result holds exactly the
/// given rows.
pub(crate) fn sort_by_time(v: Vec<SensorRecord>) -> (r: Vec<SensorRecord>)
    ensures
        time_sorted(r@),
        r@.to_multiset() == v@.to_multiset(),
{
    let mut out: Vec<SensorRecord> = Vec::new();
    proof {
        assert(v@.take(0) =~= Seq::<SensorRecord>::empty());
        assert(out@.to_multiset() =~= v@.take(0).to_multiset());
    }
    let mut k: usize = 0;
    while k < v.len()
        invariant
            k <= v@.len(),
            time_sorted(out@),
            out@.to_multiset() == v@.take(k as int).to_multiset(),
        decreases v@.len() - k,
    {
        let rec = v[k];
        let mut pos: usize = out.len();
        while pos > 0 && out[pos - 1].datetime > rec.datetime
            invariant
                pos <= out@.len(),
                forall|i: int| pos <= i < out@.len() ==> out@[i].datetime > rec.datetime,
            decreases pos,
        {
            pos = pos - 1;
        }
        proof {
            out@.insert_ensures(pos as int, rec);
            assert(v@.take(k as int + 1) =~= v@.take(k as int).push(v@[k as int]));
        }
        out.insert(pos, rec);
        k += 1;
    }
    proof {
        assert(v@.take(v@.len() as int) =~= v@);
    }
    out
}

} // verus!
