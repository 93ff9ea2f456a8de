use vstd::prelude::*;

use crate::catalog::{People, Pump, SampleType, Well};
use crate::error::Error;
use crate::sample_set::{
    apply_deltas, entries_for_task, id_sorted, lemma_lookup_some, lemma_map_push,
    lemma_map_remove, positive_qtys, row_key, sample_map, sample_rows_without_task, sort_by_id,
    unique_keys, SampleSet, SampleSetRow,
};
use crate::sensor_data::{
    rows_for_task, rows_without_task, sort_by_time, time_sorted, SensorRecord,
};
use crate::sensor_data::{lemma_rows_for_push, lemma_rows_without};
use crate::task::{
    lemma_apply_task_plan_id, plan_task_update, spec_apply_task_plan, spec_task_plan, tasks_without,
    NewTask, TaskField, TaskRow,
};
use crate::task_info::{
    clone_opt_string, info_owned_by, infos_for_task_desc, infos_without, infos_without_task,
    lemma_apply_task_info_plan_id, lemma_infos_desc, people_desc_sorted, plan_task_info_update, rels_for_info,
    rels_without_info, rels_without_pair, rels_without_task, sort_by_people_desc,
    spec_apply_task_info_plan, spec_task_info_plan, NewTaskInfo, PeopleId, TaskInfoField,
    TaskInfoRow, TaskInfoToPeopleRelation,
};
use crate::values::FieldValue;

verus! {

/// The abstract state of the record store: each table as the sequence of its
/// rows in storage order, and the next identifier each id-assigning table
/// will hand out.
pub ghost struct StoreModel {
    pub tasks: Seq<TaskRow>,
    pub task_infos: Seq<TaskInfoRow>,
    pub sample_sets: Seq<SampleSetRow>,
    pub sensor_rows: Seq<SensorRecord>,
    pub minuted_by: Seq<TaskInfoToPeopleRelation>,
    pub sampled_by: Seq<TaskInfoToPeopleRelation>,
    pub people: Seq<People>,
    pub pumps: Seq<Pump>,
    pub wells: Seq<Well>,
    pub sample_types: Seq<SampleType>,
    pub next_task_id: i64,
    pub next_task_info_id: i64,
}

/// No two relation rows link the same task-info revision to the same person.
pub open spec fn unique_rels(rels: Seq<TaskInfoToPeopleRelation>) -> bool {
    forall|i: int, j: int|
        0 <= i < j < rels.len() ==> !(rels[i].task_info_id == rels[j].task_info_id
            && rels[i].people_id == rels[j].people_id)
}

/// Adds one membership row; a duplicate membership violates the composite
/// key and is refused by the store.
fn add_rel(rels: &mut Vec<TaskInfoToPeopleRelation>, info_id: i64, people_id: i64) -> (r: Result<(), Error>)
    requires
        unique_rels(old(rels)@),
    ensures
        unique_rels(final(rels)@),
        (r is Ok <==> forall|j: int|
            0 <= j < old(rels)@.len() ==> !(#[trigger] old(rels)@[j].task_info_id == info_id
                && old(rels)@[j].people_id == people_id)),
        r is Ok ==> final(rels)@ == old(rels)@.push(
            TaskInfoToPeopleRelation { task_info_id: info_id, people_id },
        ),
        r is Err ==> *final(rels) == *old(rels) && (r->Err_0 matches Error::Store),
{
    let n = rels.len();
    let mut k: usize = 0;
    while k < n
        invariant
            k <= n,
            n == rels@.len(),
            *rels == *old(rels),
            unique_rels(rels@),
            forall|j: int|
                0 <= j < k ==> !(#[trigger] rels@[j].task_info_id == info_id
                    && rels@[j].people_id == people_id),
        decreases n - k,
    {
        let rel = rels[k];
        if rel.task_info_id == info_id && rel.people_id == people_id {
            return Err(Error::Store);
        }
        k += 1;
    }
    rels.push(TaskInfoToPeopleRelation { task_info_id: info_id, people_id });
    Ok(())
}

/// Removes one membership row if present; absence is no error.
fn remove_rel(rels: &mut Vec<TaskInfoToPeopleRelation>, info_id: i64, people_id: i64)
    requires
        unique_rels(old(rels)@),
    ensures
        unique_rels(final(rels)@),
        final(rels)@ == rels_without_pair(old(rels)@, info_id, people_id),
{
    let ghost rels0 = rels@;
    let mut kept: Vec<TaskInfoToPeopleRelation> = Vec::new();
    proof {
        assert(rels_without_pair(rels0.take(0), info_id, people_id) =~= Seq::<
            TaskInfoToPeopleRelation,
        >::empty());
    }
    let n = rels.len();
    let mut k: usize = 0;
    while k < n
        invariant
            k <= n,
            n == rels0.len(),
            rels@ == rels0,
            unique_rels(rels0),
            kept@ == rels_without_pair(rels0.take(k as int), info_id, people_id),
            forall|a: int|
                0 <= a < kept@.len() ==> exists|j: int|
                    0 <= j < k && rels0[j] == #[trigger] kept@[a],
            unique_rels(kept@),
        decreases n - k,
    {
        proof {
            assert(rels0.take(k as int + 1).drop_last() =~= rels0.take(k as int));
            assert(rels0.take(k as int + 1).last() == rels0[k as int]);
        }
        let rel = rels[k];
        if rel.task_info_id != info_id || rel.people_id != people_id {
            kept.push(rel);
        }
        k += 1;
    }
    proof {
        assert(rels0.take(n as int) =~= rels0);
    }
    *rels = kept;
}

/// A revision's membership rows, sorted descending by person reference.
fn collect_rels(rels: &Vec<TaskInfoToPeopleRelation>, info_id: i64) -> (r: Vec<
    TaskInfoToPeopleRelation,
>)
    ensures
        people_desc_sorted(r@),
        r@.to_multiset() == rels_for_info(rels@, info_id).to_multiset(),
{
    let mut picked: Vec<TaskInfoToPeopleRelation> = Vec::new();
    proof {
        assert(rels_for_info(rels@.take(0), info_id) =~= Seq::<TaskInfoToPeopleRelation>::empty());
    }
    let n = rels.len();
    let mut k: usize = 0;
    while k < n
        invariant
            k <= n,
            n == rels@.len(),
            picked@ == rels_for_info(rels@.take(k as int), info_id),
        decreases n - k,
    {
        proof {
            assert(rels@.take(k as int + 1).drop_last() =~= rels@.take(k as int));
            assert(rels@.take(k as int + 1).last() == rels@[k as int]);
        }
        let rel = rels[k];
        if rel.task_info_id == info_id {
            picked.push(rel);
        }
        k += 1;
    }
    proof {
        assert(rels@.take(n as int) =~= rels@);
    }
    sort_by_people_desc(picked)
}

/// The durable record store, modelled in memory. Every mutating operation is
/// one transaction: it commits whole, or returns an error and leaves the
/// store exactly as it was.
pub struct Store {
    tasks: Vec<TaskRow>,
    task_infos: Vec<TaskInfoRow>,
    sample_sets: Vec<SampleSetRow>,
    sensor_rows: Vec<SensorRecord>,
    minuted_by: Vec<TaskInfoToPeopleRelation>,
    sampled_by: Vec<TaskInfoToPeopleRelation>,
    people: Vec<People>,
    pumps: Vec<Pump>,
    wells: Vec<Well>,
    sample_types: Vec<SampleType>,
    next_task_id: i64,
    next_task_info_id: i64,
}

impl View for Store {
    type V = StoreModel;

    closed spec fn view(&self) -> StoreModel {
        StoreModel {
            tasks: self.tasks@,
            task_infos: self.task_infos@,
            sample_sets: self.sample_sets@,
            sensor_rows: self.sensor_rows@,
            minuted_by: self.minuted_by@,
            sampled_by: self.sampled_by@,
            people: self.people@,
            pumps: self.pumps@,
            wells: self.wells@,
            sample_types: self.sample_types@,
            next_task_id: self.next_task_id,
            next_task_info_id: self.next_task_info_id,
        }
    }
}

impl Store {
    /// The store's well-formedness: identifiers are unique and below the
    /// next to be assigned, task-info rows sit in ascending id order,
    /// sample-set rows carry unique composite keys and positive quantities,
    /// and relation rows are unique memberships.
    pub open spec fn wf(&self) -> bool {
        &&& forall|i: int, j: int|
            0 <= i < j < self@.tasks.len() ==> self@.tasks[i].id != self@.tasks[j].id
        &&& forall|i: int|
            0 <= i < self@.tasks.len() ==> #[trigger] self@.tasks[i].id < self@.next_task_id
        &&& forall|i: int, j: int|
            0 <= i < j < self@.task_infos.len() ==> self@.task_infos[i].id
                < self@.task_infos[j].id
        &&& forall|i: int|
            0 <= i < self@.task_infos.len() ==> #[trigger] self@.task_infos[i].id
                < self@.next_task_info_id
        &&& crate::sample_set::unique_keys(self@.sample_sets)
        &&& crate::sample_set::positive_qtys(self@.sample_sets)
        &&& unique_rels(self@.minuted_by)
        &&& unique_rels(self@.sampled_by)
        &&& self@.next_task_id >= 1
        &&& self@.next_task_info_id >= 1
    }

    /// An empty store, with the reference tables (wells, pumps, sample
    /// types, people) injected at construction.
    pub fn with_catalogs(
        people: Vec<People>,
        pumps: Vec<Pump>,
        wells: Vec<Well>,
        sample_types: Vec<SampleType>,
    ) -> (r: Store)
        ensures
            r.wf(),
            r@.tasks == Seq::<TaskRow>::empty(),
            r@.task_infos == Seq::<TaskInfoRow>::empty(),
            r@.sample_sets == Seq::<SampleSetRow>::empty(),
            r@.sensor_rows == Seq::<SensorRecord>::empty(),
            r@.minuted_by == Seq::<TaskInfoToPeopleRelation>::empty(),
            r@.sampled_by == Seq::<TaskInfoToPeopleRelation>::empty(),
            r@.people == people@,
            r@.pumps == pumps@,
            r@.wells == wells@,
            r@.sample_types == sample_types@,
            r@.next_task_id == 1,
            r@.next_task_info_id == 1,
    {
        Store {
            tasks: Vec::new(),
            task_infos: Vec::new(),
            sample_sets: Vec::new(),
            sensor_rows: Vec::new(),
            minuted_by: Vec::new(),
            sampled_by: Vec::new(),
            people,
            pumps,
            wells,
            sample_types,
            next_task_id: 1,
            next_task_info_id: 1,
        }
    }

    /// An empty store with empty reference tables.
    pub fn new() -> (r: Store)
        ensures
            r.wf(),
            r@.tasks == Seq::<TaskRow>::empty(),
            r@.task_infos == Seq::<TaskInfoRow>::empty(),
            r@.sample_sets == Seq::<SampleSetRow>::empty(),
            r@.sensor_rows == Seq::<SensorRecord>::empty(),
            r@.minuted_by == Seq::<TaskInfoToPeopleRelation>::empty(),
            r@.sampled_by == Seq::<TaskInfoToPeopleRelation>::empty(),
            r@.people == Seq::<People>::empty(),
            r@.pumps == Seq::<Pump>::empty(),
            r@.wells == Seq::<Well>::empty(),
            r@.sample_types == Seq::<SampleType>::empty(),
            r@.next_task_id == 1,
            r@.next_task_info_id == 1,
    {
        Store::with_catalogs(Vec::new(), Vec::new(), Vec::new(), Vec::new())
    }

    /// The reference table of people.
    pub fn list_people(&self) -> (r: &Vec<People>)
        ensures
            r@ == self@.people,
    {
        &self.people
    }

    /// The reference table of pumps.
    pub fn list_pumps(&self) -> (r: &Vec<Pump>)
        ensures
            r@ == self@.pumps,
    {
        &self.pumps
    }

    /// The reference table of wells.
    pub fn list_wells(&self) -> (r: &Vec<Well>)
        ensures
            r@ == self@.wells,
    {
        &self.wells
    }

    /// The reference table of sample types.
    pub fn list_sample_types(&self) -> (r: &Vec<SampleType>)
        ensures
            r@ == self@.sample_types,
    {
        &self.sample_types
    }

    /// Validates and bulk-inserts a batch of sensor rows for a task. Every
    /// record must reference the batch's task: one mismatch anywhere in the
    /// batch discards it whole, and the store is left exactly as it was.
    pub fn insert_sensor_data(&mut self, task_id: i64, records: &Vec<SensorRecord>) -> (r: Result<(), Error>)
        requires
            old(self).wf(),
        ensures
            final(self).wf(),
            (r is Ok <==> forall|i: int|
                0 <= i < records@.len() ==> #[trigger] records@[i].task_id == task_id),
            r is Ok ==> final(self)@ == (StoreModel {
                sensor_rows: old(self)@.sensor_rows + records@,
                ..old(self)@
            }),
            r is Err ==> *final(self) == *old(self) && (r->Err_0 matches Error::TaskMismatch),
    {
        let n = records.len();
        let mut k: usize = 0;
        while k < n
            invariant
                k <= n,
                n == records@.len(),
                *self == *old(self),
                self.wf(),
                forall|i: int| 0 <= i < k ==> #[trigger] records@[i].task_id == task_id,
            decreases n - k,
        {
            if records[k].task_id != task_id {
                return Err(Error::TaskMismatch);
            }
            k += 1;
        }
        proof {
            assert(old(self)@.sensor_rows + records@.take(0) =~= old(self)@.sensor_rows);
        }
        let mut k2: usize = 0;
        while k2 < n
            invariant
                k2 <= n,
                n == records@.len(),
                self.sensor_rows@ == old(self)@.sensor_rows + records@.take(k2 as int),
                self.tasks@ == old(self)@.tasks,
                self.task_infos@ == old(self)@.task_infos,
                self.sample_sets@ == old(self)@.sample_sets,
                self.minuted_by@ == old(self)@.minuted_by,
                self.sampled_by@ == old(self)@.sampled_by,
                self.people@ == old(self)@.people,
                self.pumps@ == old(self)@.pumps,
                self.wells@ == old(self)@.wells,
                self.sample_types@ == old(self)@.sample_types,
                self.next_task_id == old(self)@.next_task_id,
                self.next_task_info_id == old(self)@.next_task_info_id,
            decreases n - k2,
        {
            proof {
                assert((old(self)@.sensor_rows + records@.take(k2 as int)).push(
                    records@[k2 as int],
                ) =~= old(self)@.sensor_rows + records@.take(k2 as int + 1));
            }
            let rec = records[k2];
            self.sensor_rows.push(rec);
            k2 += 1;
        }
        proof {
            assert(records@.take(n as int) =~= records@);
        }
        Ok(())
    }

    /// All sensor rows for a task, ascending by timestamp; a task with no
    /// rows yields the empty sequence.
    pub fn get_sensor_data(&self, task_id: i64) -> (r: Vec<SensorRecord>)
        ensures
            time_sorted(r@),
            r@.to_multiset() == rows_for_task(self@.sensor_rows, task_id).to_multiset(),
    {
        let mut picked: Vec<SensorRecord> = Vec::new();
        proof {
            assert(rows_for_task(self@.sensor_rows.take(0), task_id) =~= Seq::<
                SensorRecord,
            >::empty());
        }
        let n = self.sensor_rows.len();
        let mut k: usize = 0;
        while k < n
            invariant
                k <= n,
                n == self@.sensor_rows.len(),
                picked@ == rows_for_task(self@.sensor_rows.take(k as int), task_id),
            decreases n - k,
        {
            proof {
                assert(self@.sensor_rows.take(k as int).push(self@.sensor_rows[k as int])
                    =~= self@.sensor_rows.take(k as int + 1));
                lemma_rows_for_push(
                    self@.sensor_rows.take(k as int),
                    self@.sensor_rows[k as int],
                    task_id,
                );
            }
            let rec = self.sensor_rows[k];
            if rec.task_id == task_id {
                picked.push(rec);
            }
            k += 1;
        }
        proof {
            assert(self@.sensor_rows.take(n as int) =~= self@.sensor_rows);
        }
        sort_by_time(picked)
    }

    /// The timestamp of a task's most recent sensor row, or `None` when the
    /// task has no rows.
    pub fn get_latest_timestamp(&self, task_id: i64) -> (r: Option<i64>)
        ensures
            (r is None <==> forall|i: int|
                0 <= i < self@.sensor_rows.len() ==> #[trigger] self@.sensor_rows[i].task_id
                    != task_id),
            r matches Some(t) ==> (exists|i: int|
                0 <= i < self@.sensor_rows.len() && #[trigger] self@.sensor_rows[i].task_id
                    == task_id && self@.sensor_rows[i].datetime == t) && (forall|i: int|
                0 <= i < self@.sensor_rows.len() && #[trigger] self@.sensor_rows[i].task_id
                    == task_id ==> self@.sensor_rows[i].datetime <= t),
    {
        let mut best: Option<i64> = None;
        let n = self.sensor_rows.len();
        let mut k: usize = 0;
        while k < n
            invariant
                k <= n,
                n == self@.sensor_rows.len(),
                (best is None <==> forall|i: int|
                    0 <= i < k ==> #[trigger] self@.sensor_rows[i].task_id != task_id),
                best matches Some(t) ==> (exists|i: int|
                    0 <= i < k && #[trigger] self@.sensor_rows[i].task_id == task_id
                        && self@.sensor_rows[i].datetime == t) && (forall|i: int|
                    0 <= i < k && #[trigger] self@.sensor_rows[i].task_id == task_id
                        ==> self@.sensor_rows[i].datetime <= t),
            decreases n - k,
        {
            let rec = self.sensor_rows[k];
            if rec.task_id == task_id {
                match best {
                    None => {
                        best = Some(rec.datetime);
                    },
                    Some(t) => {
                        if rec.datetime > t {
                            best = Some(rec.datetime);
                        }
                    },
                }
            }
            k += 1;
        }
        best
    }

    /// Deletes every sensor row of a task; a task with no rows is left as it
    /// was, without error.
    pub fn clear_sensor_data(&mut self, task_id: i64)
        requires
            old(self).wf(),
        ensures
            final(self).wf(),
            final(self)@ == (StoreModel {
                sensor_rows: rows_without_task(old(self)@.sensor_rows, task_id),
                ..old(self)@
            }),
            rows_for_task(old(self)@.sensor_rows, task_id).len() == 0 ==> final(self)@
                == old(self)@,
    {
        let mut kept: Vec<SensorRecord> = Vec::new();
        proof {
            assert(rows_without_task(self@.sensor_rows.take(0), task_id) =~= Seq::<
                SensorRecord,
            >::empty());
        }
        let n = self.sensor_rows.len();
        let mut k: usize = 0;
        while k < n
            invariant
                k <= n,
                n == self@.sensor_rows.len(),
                kept@ == rows_without_task(self@.sensor_rows.take(k as int), task_id),
            decreases n - k,
        {
            proof {
                assert(self@.sensor_rows.take(k as int + 1).drop_last() =~= self@.sensor_rows.take(
                    k as int,
                ));
                assert(self@.sensor_rows.take(k as int + 1).last() == self@.sensor_rows[k as int]);
            }
            let rec = self.sensor_rows[k];
            if rec.task_id != task_id {
                kept.push(rec);
            }
            k += 1;
        }
        proof {
            assert(self@.sensor_rows.take(n as int) =~= self@.sensor_rows);
            lemma_rows_without(self@.sensor_rows, task_id);
        }
        self.sensor_rows = kept;
    }

    /// The index of the sample-set row carrying a composite key, if any.
    fn find_sample_row(&self, task_id: i64, sample_type_id: i64) -> (r: Option<usize>)
        ensures
            (match r {
                Some(i) => i < self@.sample_sets.len() && row_key(self@.sample_sets[i as int])
                    == (task_id, sample_type_id),
                None => forall|j: int|
                    0 <= j < self@.sample_sets.len() ==> #[trigger] row_key(self@.sample_sets[j])
                        != (task_id, sample_type_id),
            }),
    {
        let n = self.sample_sets.len();
        let mut k: usize = 0;
        while k < n
            invariant
                k <= n,
                n == self@.sample_sets.len(),
                forall|j: int|
                    0 <= j < k ==> #[trigger] row_key(self@.sample_sets[j]) != (
                        task_id,
                        sample_type_id,
                    ),
            decreases n - k,
        {
            let row = self.sample_sets[k];
            if row.task_id == task_id && row.sample_type_id == sample_type_id {
                return Some(k);
            }
            k += 1;
        }
        None
    }

    /// Reconciles a task's sample set against a batch of (type, quantity)
    /// deltas, in submitted order: quantity zero deletes the entry (absence
    /// is no error), a positive quantity inserts or overwrites it, and a
    /// negative quantity rejects the whole batch before any change. All
    /// deltas commit together or none do.
    pub fn update_sample_set(&mut self, task_id: i64, update_items: &Vec<SampleSet>) -> (r: Result<(), Error>)
        requires
            old(self).wf(),
        ensures
            final(self).wf(),
            (r is Ok <==> forall|i: int|
                0 <= i < update_items@.len() ==> #[trigger] update_items@[i].qty >= 0),
            r is Ok ==> sample_map(final(self)@.sample_sets) == apply_deltas(
                sample_map(old(self)@.sample_sets),
                task_id,
                update_items@,
            ),
            r is Ok ==> final(self)@ == (StoreModel {
                sample_sets: final(self)@.sample_sets,
                ..old(self)@
            }),
            r is Err ==> *final(self) == *old(self) && (r->Err_0 matches Error::NegativeQuantity),
    {
        let n = update_items.len();
        let mut k: usize = 0;
        while k < n
            invariant
                k <= n,
                n == update_items@.len(),
                *self == *old(self),
                self.wf(),
                forall|i: int| 0 <= i < k ==> #[trigger] update_items@[i].qty >= 0,
            decreases n - k,
        {
            if update_items[k].qty < 0 {
                return Err(Error::NegativeQuantity);
            }
            k += 1;
        }
        proof {
            assert(update_items@.take(0) =~= Seq::<SampleSet>::empty());
        }
        let ghost m0 = sample_map(old(self)@.sample_sets);
        let mut k2: usize = 0;
        while k2 < n
            invariant
                k2 <= n,
                n == update_items@.len(),
                unique_keys(self@.sample_sets),
                positive_qtys(self@.sample_sets),
                forall|i: int| 0 <= i < n ==> #[trigger] update_items@[i].qty >= 0,
                m0 == sample_map(old(self)@.sample_sets),
                sample_map(self@.sample_sets) == apply_deltas(
                    m0,
                    task_id,
                    update_items@.take(k2 as int),
                ),
                self@ == (StoreModel { sample_sets: self@.sample_sets, ..old(self)@ }),
            decreases n - k2,
        {
            let d = update_items[k2];
            let ghost key = (task_id, d.id);
            let ghost rows_before = self@.sample_sets;
            proof {
                assert(update_items@.take(k2 as int + 1).drop_last() =~= update_items@.take(
                    k2 as int,
                ));
                assert(update_items@.take(k2 as int + 1).last() == update_items@[k2 as int]);
            }
            let found = self.find_sample_row(task_id, d.id);
            if d.qty == 0 {
                match found {
                    Some(i) => {
                        proof {
                            lemma_map_remove(rows_before, i as int);
                            rows_before.remove_ensures(i as int);
                        }
                        self.sample_sets.remove(i);
                        proof {
                            let removed = rows_before.remove(i as int);
                            assert forall|a: int, b: int| 0 <= a < b < removed.len() implies
                                row_key(removed[a]) != row_key(removed[b]) by {
                                assert(removed[a] == rows_before[if a < i { a } else { a + 1 }]);
                                assert(removed[b] == rows_before[if b < i { b } else { b + 1 }]);
                            }
                            assert forall|a: int| 0 <= a < removed.len() implies removed[a].qty
                                > 0 by {
                                assert(removed[a] == rows_before[if a < i { a } else { a + 1 }]);
                            }
                        }
                    },
                    None => {
                        proof {
                            lemma_lookup_some(rows_before, key);
                            assert(sample_map(rows_before).remove(key) =~= sample_map(
                                rows_before,
                            ));
                        }
                    },
                }
            } else {
                let new_row = SampleSetRow { task_id, sample_type_id: d.id, qty: d.qty };
                match found {
                    Some(i) => {
                        proof {
                            lemma_map_remove(rows_before, i as int);
                            rows_before.remove_ensures(i as int);
                        }
                        self.sample_sets.remove(i);
                        proof {
                            let removed = rows_before.remove(i as int);
                            assert forall|a: int, b: int| 0 <= a < b < removed.len() implies
                                row_key(removed[a]) != row_key(removed[b]) by {
                                assert(removed[a] == rows_before[if a < i { a } else { a + 1 }]);
                                assert(removed[b] == rows_before[if b < i { b } else { b + 1 }]);
                            }
                            assert forall|a: int| 0 <= a < removed.len() implies removed[a].qty
                                > 0 by {
                                assert(removed[a] == rows_before[if a < i { a } else { a + 1 }]);
                            }
                            assert forall|a: int| 0 <= a < removed.len() implies
                                row_key(removed[a]) != key by {
                                assert(removed[a] == rows_before[if a < i { a } else { a + 1 }]);
                            }
                            lemma_map_push(removed, new_row);
                            assert(sample_map(rows_before).remove(key).insert(key, d.qty)
                                =~= sample_map(rows_before).insert(key, d.qty));
                        }
                        self.sample_sets.push(new_row);
                    },
                    None => {
                        proof {
                            lemma_map_push(rows_before, new_row);
                        }
                        self.sample_sets.push(new_row);
                    },
                }
            }
            k2 += 1;
        }
        proof {
            assert(update_items@.take(n as int) =~= update_items@);
        }
        Ok(())
    }

    /// A task's sample set, one (type, quantity) entry per stored row,
    /// ascending by sample-type identifier. A task with no entries yields
    /// the empty sequence.
    pub fn get_sample_set(&self, task_id: i64) -> (r: Vec<SampleSet>)
        ensures
            id_sorted(r@),
            r@.to_multiset() == entries_for_task(self@.sample_sets, task_id).to_multiset(),
    {
        let mut picked: Vec<SampleSet> = Vec::new();
        proof {
            assert(entries_for_task(self@.sample_sets.take(0), task_id) =~= Seq::<
                SampleSet,
            >::empty());
        }
        let n = self.sample_sets.len();
        let mut k: usize = 0;
        while k < n
            invariant
                k <= n,
                n == self@.sample_sets.len(),
                picked@ == entries_for_task(self@.sample_sets.take(k as int), task_id),
            decreases n - k,
        {
            proof {
                assert(self@.sample_sets.take(k as int + 1).drop_last() =~= self@.sample_sets.take(
                    k as int,
                ));
                assert(self@.sample_sets.take(k as int + 1).last() == self@.sample_sets[k as int]);
            }
            let row = self.sample_sets[k];
            if row.task_id == task_id {
                picked.push(SampleSet { id: row.sample_type_id, qty: row.qty });
            }
            k += 1;
        }
        proof {
            assert(self@.sample_sets.take(n as int) =~= self@.sample_sets);
        }
        sort_by_id(picked)
    }

    /// Applies an untyped field mapping to one task row as one transaction,
    /// each name checked against the task whitelist and each value converted
    /// to the column's type: the first unknown name or ill-typed value
    /// rejects the whole mapping, and the store is left exactly as it was.
    /// Updating an identifier no row carries changes nothing and is no
    /// error.
    pub fn update_task(&mut self, task_id: i64, fields: &Vec<(String, FieldValue)>) -> (r: Result<(), Error>)
        requires
            old(self).wf(),
        ensures
            final(self).wf(),
            (r is Ok <==> spec_task_plan(fields@) is Ok),
            spec_task_plan(fields@) matches Err(e) ==> *final(self) == *old(self) && (r matches
                Err(e2) && e2 == e),
            spec_task_plan(fields@) matches Ok(plan) ==> final(self)@ == (StoreModel {
                tasks: final(self)@.tasks,
                ..old(self)@
            }) && final(self)@.tasks.len() == old(self)@.tasks.len() && (forall|j: int|
                0 <= j < old(self)@.tasks.len() ==> #[trigger] final(self)@.tasks[j] == (
                if old(self)@.tasks[j].id == task_id {
                    spec_apply_task_plan(old(self)@.tasks[j], plan)
                } else {
                    old(self)@.tasks[j]
                })),
    {
        let plan = match plan_task_update(fields) {
            Ok(p) => p,
            Err(e) => {
                return Err(e);
            },
        };
        let n = self.tasks.len();
        let mut found: Option<usize> = None;
        let mut k: usize = 0;
        while k < n
            invariant
                k <= n,
                n == self@.tasks.len(),
                *self == *old(self),
                (match found {
                    Some(i) => i < n && self@.tasks[i as int].id == task_id,
                    None => forall|j: int| 0 <= j < k ==> #[trigger] self@.tasks[j].id != task_id,
                }),
            decreases n - k,
        {
            if self.tasks[k].id == task_id {
                found = Some(k);
            }
            k += 1;
        }
        let i = match found {
            None => {
                return Ok(());
            },
            Some(i) => i,
        };
        let ghost tasks0 = self@.tasks;
        let ghost plan_seq = plan@;
        let mut row = self.tasks.remove(i);
        let ghost row0 = row;
        let m = plan.len();
        let mut t: usize = 0;
        proof {
            assert(plan_seq.take(0) =~= Seq::<TaskField>::empty());
        }
        while t < m
            invariant
                t <= m,
                m == plan@.len(),
                plan@ == plan_seq,
                row == spec_apply_task_plan(row0, plan_seq.take(t as int)),
                self@.tasks == tasks0.remove(i as int),
                self@ == (StoreModel { tasks: self@.tasks, ..old(self)@ }),
            decreases m - t,
        {
            proof {
                assert(plan_seq.take(t as int + 1).drop_last() =~= plan_seq.take(t as int));
                assert(plan_seq.take(t as int + 1).last() == plan_seq[t as int]);
            }
            match &plan[t] {
                TaskField::Done(b) => {
                    row.done = Some(*b);
                },
                TaskField::Serial(s) => {
                    row.serial = Some(s.clone());
                },
                TaskField::WellId(w) => {
                    row.well_id = *w;
                },
                TaskField::Depth(d) => {
                    row.depth = d.clone();
                },
            }
            t += 1;
        }
        proof {
            assert(plan_seq.take(m as int) =~= plan_seq);
        }
        self.tasks.insert(i, row);
        proof {
            tasks0.remove_ensures(i as int);
            tasks0.remove(i as int).insert_ensures(i as int, row);
            lemma_apply_task_plan_id(row0, plan_seq);
            assert forall|j: int| 0 <= j < tasks0.len() implies #[trigger] self@.tasks[j] == (
            if tasks0[j].id == task_id {
                spec_apply_task_plan(tasks0[j], plan_seq)
            } else {
                tasks0[j]
            }) by {
                if j < i as int {
                    assert(self@.tasks[j] == tasks0.remove(i as int)[j]);
                } else if j == i as int {
                } else {
                    assert(self@.tasks[j] == tasks0.remove(i as int)[j - 1]);
                }
            }
        }
        Ok(())
    }

    /// Applies an untyped field mapping to one task-info row as one
    /// transaction, each name checked against the task-info whitelist and
    /// each value converted to the column's type (null clears a column): the
    /// first unknown name or ill-typed value rejects the whole mapping, and
    /// the store is left exactly as it was. Updating an identifier no row
    /// carries changes nothing and is no error.
    pub fn update_task_info(&mut self, task_info_id: i64, fields: &Vec<(String, FieldValue)>) -> (r: Result<(), Error>)
        requires
            old(self).wf(),
        ensures
            final(self).wf(),
            (r is Ok <==> spec_task_info_plan(fields@) is Ok),
            spec_task_info_plan(fields@) matches Err(e) ==> *final(self) == *old(self) && (r
                matches Err(e2) && e2 == e),
            spec_task_info_plan(fields@) matches Ok(plan) ==> final(self)@ == (StoreModel {
                task_infos: final(self)@.task_infos,
                ..old(self)@
            }) && final(self)@.task_infos.len() == old(self)@.task_infos.len() && (forall|j: int|
                0 <= j < old(self)@.task_infos.len() ==> #[trigger] final(self)@.task_infos[j] == (
                if old(self)@.task_infos[j].id == task_info_id {
                    spec_apply_task_info_plan(old(self)@.task_infos[j], plan)
                } else {
                    old(self)@.task_infos[j]
                })),
    {
        let plan = match plan_task_info_update(fields) {
            Ok(p) => p,
            Err(e) => {
                return Err(e);
            },
        };
        let n = self.task_infos.len();
        let mut found: Option<usize> = None;
        let mut k: usize = 0;
        while k < n
            invariant
                k <= n,
                n == self@.task_infos.len(),
                *self == *old(self),
                (match found {
                    Some(i) => i < n && self@.task_infos[i as int].id == task_info_id,
                    None => forall|j: int|
                        0 <= j < k ==> #[trigger] self@.task_infos[j].id != task_info_id,
                }),
            decreases n - k,
        {
            if self.task_infos[k].id == task_info_id {
                found = Some(k);
            }
            k += 1;
        }
        let i = match found {
            None => {
                return Ok(());
            },
            Some(i) => i,
        };
        let ghost infos0 = self@.task_infos;
        let ghost plan_seq = plan@;
        let mut row = self.task_infos.remove(i);
        let ghost row0 = row;
        let m = plan.len();
        let mut t: usize = 0;
        proof {
            assert(plan_seq.take(0) =~= Seq::<TaskInfoField>::empty());
        }
        while t < m
            invariant
                t <= m,
                m == plan@.len(),
                plan@ == plan_seq,
                row == spec_apply_task_info_plan(row0, plan_seq.take(t as int)),
                self@.task_infos == infos0.remove(i as int),
                self@ == (StoreModel { task_infos: self@.task_infos, ..old(self)@ }),
            decreases m - t,
        {
            proof {
                assert(plan_seq.take(t as int + 1).drop_last() =~= plan_seq.take(t as int));
                assert(plan_seq.take(t as int + 1).last() == plan_seq[t as int]);
            }
            match &plan[t] {
                TaskInfoField::Calibration(v) => {
                    row.calibration = clone_opt_string(v);
                },
                TaskInfoField::PurgingTime(v) => {
                    row.purging_time = *v;
                },
                TaskInfoField::WaterLevel(v) => {
                    row.water_level = *v;
                },
                TaskInfoField::PumpId(v) => {
                    row.pump_id = *v;
                },
                TaskInfoField::PumpDepth(v) => {
                    row.pump_depth = *v;
                },
                TaskInfoField::PumpFreq(v) => {
                    row.pump_freq = *v;
                },
                TaskInfoField::PumpRate(v) => {
                    row.pump_rate = *v;
                },
                TaskInfoField::HoseSetup(v) => {
                    row.hose_setup = clone_opt_string(v);
                },
                TaskInfoField::SamplingTime(v) => {
                    row.sampling_time = *v;
                },
                TaskInfoField::SampleWtRadium(v) => {
                    row.sample_wt_radium = *v;
                },
                TaskInfoField::Comment(v) => {
                    row.comment = clone_opt_string(v);
                },
            }
            t += 1;
        }
        proof {
            assert(plan_seq.take(m as int) =~= plan_seq);
        }
        self.task_infos.insert(i, row);
        proof {
            infos0.remove_ensures(i as int);
            infos0.remove(i as int).insert_ensures(i as int, row);
            lemma_apply_task_info_plan_id(row0, plan_seq);
            assert forall|j: int| 0 <= j < infos0.len() implies #[trigger] self@.task_infos[j] == (
            if infos0[j].id == task_info_id {
                spec_apply_task_info_plan(infos0[j], plan_seq)
            } else {
                infos0[j]
            }) by {
                if j < i as int {
                    assert(self@.task_infos[j] == infos0.remove(i as int)[j]);
                } else if j == i as int {
                } else {
                    assert(self@.task_infos[j] == infos0.remove(i as int)[j - 1]);
                }
            }
        }
        Ok(())
    }

    /// Creates a task tied to a well, with a store-assigned identifier. The
    /// store refuses the insert only when its identifier space is exhausted.
    pub fn insert_task(&mut self, new_task: NewTask) -> (r: Result<i64, Error>)
        requires
            old(self).wf(),
        ensures
            final(self).wf(),
            (r is Ok <==> old(self)@.next_task_id < i64::MAX),
            r matches Ok(id) ==> id == old(self)@.next_task_id && final(self)@ == (StoreModel {
                tasks: old(self)@.tasks.push(
                    TaskRow {
                        id: old(self)@.next_task_id,
                        well_id: new_task.well_id,
                        depth: new_task.depth,
                        done: None,
                        serial: None,
                        comment: None,
                    },
                ),
                next_task_id: (old(self)@.next_task_id + 1) as i64,
                ..old(self)@
            }),
            r is Err ==> *final(self) == *old(self) && (r->Err_0 matches Error::Store),
    {
        if self.next_task_id == i64::MAX {
            return Err(Error::Store);
        }
        let id = self.next_task_id;
        self.next_task_id = self.next_task_id + 1;
        self.tasks.push(
            TaskRow {
                id,
                well_id: new_task.well_id,
                depth: new_task.depth,
                done: None,
                serial: None,
                comment: None,
            },
        );
        Ok(id)
    }

    /// Records a task-info revision for a task, with a store-assigned
    /// identifier. The store refuses the insert only when its identifier
    /// space is exhausted.
    pub fn insert_task_info(&mut self, task_id: i64, info: NewTaskInfo) -> (r: Result<i64, Error>)
        requires
            old(self).wf(),
        ensures
            final(self).wf(),
            (r is Ok <==> old(self)@.next_task_info_id < i64::MAX),
            r matches Ok(id) ==> id == old(self)@.next_task_info_id && final(self)@ == (StoreModel {
                task_infos: old(self)@.task_infos.push(
                    TaskInfoRow {
                        id: old(self)@.next_task_info_id,
                        task_id: task_id,
                        calibration: info.calibration,
                        purging_time: info.purging_time,
                        water_level: info.water_level,
                        pump_id: info.pump_id,
                        pump_depth: info.pump_depth,
                        pump_freq: info.pump_freq,
                        pump_rate: info.pump_rate,
                        hose_setup: info.hose_setup,
                        sampling_time: info.sampling_time,
                        sample_wt_radium: info.sample_wt_radium,
                        comment: info.comment,
                    },
                ),
                next_task_info_id: (old(self)@.next_task_info_id + 1) as i64,
                ..old(self)@
            }),
            r is Err ==> *final(self) == *old(self) && (r->Err_0 matches Error::Store),
    {
        if self.next_task_info_id == i64::MAX {
            return Err(Error::Store);
        }
        let id = self.next_task_info_id;
        self.next_task_info_id = self.next_task_info_id + 1;
        self.task_infos.push(
            TaskInfoRow {
                id,
                task_id,
                calibration: info.calibration,
                purging_time: info.purging_time,
                water_level: info.water_level,
                pump_id: info.pump_id,
                pump_depth: info.pump_depth,
                pump_freq: info.pump_freq,
                pump_rate: info.pump_rate,
                hose_setup: info.hose_setup,
                sampling_time: info.sampling_time,
                sample_wt_radium: info.sample_wt_radium,
                comment: info.comment,
            },
        );
        Ok(id)
    }

    /// The task row carrying an identifier, if any.
    pub fn get_task(&self, task_id: i64) -> (r: Option<TaskRow>)
        ensures
            (match r {
                Some(row) => exists|j: int|
                    0 <= j < self@.tasks.len() && #[trigger] self@.tasks[j] == row && row.id
                        == task_id,
                None => forall|j: int|
                    0 <= j < self@.tasks.len() ==> #[trigger] self@.tasks[j].id != task_id,
            }),
    {
        let n = self.tasks.len();
        let mut k: usize = 0;
        while k < n
            invariant
                k <= n,
                n == self@.tasks.len(),
                forall|j: int| 0 <= j < k ==> #[trigger] self@.tasks[j].id != task_id,
            decreases n - k,
        {
            let row = &self.tasks[k];
            if row.id == task_id {
                return Some(row.clone());
            }
            k += 1;
        }
        None
    }

    /// A task's info revisions, strictly descending by identifier: the most
    /// recent revision first.
    pub fn get_task_info(&self, task_id: i64) -> (r: Vec<TaskInfoRow>)
        requires
            self.wf(),
        ensures
            r@ == infos_for_task_desc(self@.task_infos, task_id),
            forall|a: int, b: int| 0 <= a < b < r@.len() ==> r@[a].id > r@[b].id,
            forall|a: int| 0 <= a < r@.len() ==> (#[trigger] r@[a]).task_id == task_id,
    {
        proof {
            lemma_infos_desc(self@.task_infos, task_id);
        }
        let mut picked: Vec<TaskInfoRow> = Vec::new();
        let n = self.task_infos.len();
        let mut k: usize = n;
        proof {
            assert(infos_for_task_desc(self@.task_infos, task_id) =~= picked@
                + infos_for_task_desc(self@.task_infos.take(n as int), task_id)) by {
                assert(self@.task_infos.take(n as int) =~= self@.task_infos);
                assert(picked@ + infos_for_task_desc(self@.task_infos, task_id)
                    =~= infos_for_task_desc(self@.task_infos, task_id));
            }
        }
        while k > 0
            invariant
                k <= n,
                n == self@.task_infos.len(),
                infos_for_task_desc(self@.task_infos, task_id) == picked@ + infos_for_task_desc(
                    self@.task_infos.take(k as int),
                    task_id,
                ),
            decreases k,
        {
            proof {
                assert(self@.task_infos.take(k as int).drop_last() =~= self@.task_infos.take(
                    k as int - 1,
                ));
                assert(self@.task_infos.take(k as int).last() == self@.task_infos[k as int - 1]);
            }
            let row = &self.task_infos[k - 1];
            if row.task_id == task_id {
                proof {
                    assert(picked@ + (seq![self@.task_infos[k as int - 1]]
                        + infos_for_task_desc(self@.task_infos.take(k as int - 1), task_id))
                        =~= picked@.push(self@.task_infos[k as int - 1]) + infos_for_task_desc(
                        self@.task_infos.take(k as int - 1),
                        task_id,
                    ));
                }
                picked.push(row.clone());
            }
            k -= 1;
        }
        proof {
            assert(self@.task_infos.take(0) =~= Seq::<TaskInfoRow>::empty());
            assert(picked@ + Seq::<TaskInfoRow>::empty() =~= picked@);
        }
        picked
    }

    /// The sampling time of the most recent info revision that records one,
    /// or `None` when no revision does. Revisions are stored in ascending id
    /// order, so the last recorded sampling time wins.
    pub fn get_last_timestamp(&self) -> (r: Option<i64>)
        ensures
            (r is None <==> forall|j: int|
                0 <= j < self@.task_infos.len() ==> (#[trigger] self@.task_infos[j].sampling_time)
                    is None),
            r matches Some(ts) ==> exists|j: int|
                0 <= j < self@.task_infos.len() && (#[trigger] self@.task_infos[j].sampling_time)
                    == Some(ts) && (forall|j2: int|
                    j < j2 < self@.task_infos.len() ==> (
                    #[trigger] self@.task_infos[j2].sampling_time) is None),
    {
        let n = self.task_infos.len();
        let mut k: usize = n;
        while k > 0
            invariant
                k <= n,
                n == self@.task_infos.len(),
                forall|j: int|
                    k <= j < n ==> (#[trigger] self@.task_infos[j].sampling_time) is None,
            decreases k,
        {
            match self.task_infos[k - 1].sampling_time {
                Some(ts) => {
                    return Some(ts);
                },
                None => {},
            }
            k -= 1;
        }
        None
    }

    /// The people recorded as minute-takers of an info revision, descending
    /// by person reference.
    pub fn get_minuted_by(&self, task_info_id: i64) -> (r: Vec<TaskInfoToPeopleRelation>)
        ensures
            people_desc_sorted(r@),
            r@.to_multiset() == rels_for_info(self@.minuted_by, task_info_id).to_multiset(),
    {
        collect_rels(&self.minuted_by, task_info_id)
    }

    /// Records a person as a minute-taker of an info revision; a duplicate
    /// membership is refused by the store's composite key.
    pub fn add_minuted_by(&mut self, task_info_id: i64, people: PeopleId) -> (r: Result<(), Error>)
        requires
            old(self).wf(),
        ensures
            final(self).wf(),
            (r is Ok <==> forall|j: int|
                0 <= j < old(self)@.minuted_by.len() ==> !(
                #[trigger] old(self)@.minuted_by[j].task_info_id == task_info_id
                    && old(self)@.minuted_by[j].people_id == people.id)),
            r is Ok ==> final(self)@ == (StoreModel {
                minuted_by: old(self)@.minuted_by.push(
                    TaskInfoToPeopleRelation { task_info_id, people_id: people.id },
                ),
                ..old(self)@
            }),
            r is Err ==> *final(self) == *old(self) && (r->Err_0 matches Error::Store),
    {
        add_rel(&mut self.minuted_by, task_info_id, people.id)
    }

    /// Removes a person from an info revision's minute-takers; absence is no
    /// error.
    pub fn delete_minuted_by(&mut self, task_info_id: i64, people_id: i64)
        requires
            old(self).wf(),
        ensures
            final(self).wf(),
            final(self)@ == (StoreModel {
                minuted_by: rels_without_pair(old(self)@.minuted_by, task_info_id, people_id),
                ..old(self)@
            }),
    {
        remove_rel(&mut self.minuted_by, task_info_id, people_id);
    }

    /// The people recorded as samplers of an info revision, descending by
    /// person reference.
    pub fn get_sampled_by(&self, task_info_id: i64) -> (r: Vec<TaskInfoToPeopleRelation>)
        ensures
            people_desc_sorted(r@),
            r@.to_multiset() == rels_for_info(self@.sampled_by, task_info_id).to_multiset(),
    {
        collect_rels(&self.sampled_by, task_info_id)
    }

    /// Records a person as a sampler of an info revision; a duplicate
    /// membership is refused by the store's composite key.
    pub fn add_sampled_by(&mut self, task_info_id: i64, people: PeopleId) -> (r: Result<(), Error>)
        requires
            old(self).wf(),
        ensures
            final(self).wf(),
            (r is Ok <==> forall|j: int|
                0 <= j < old(self)@.sampled_by.len() ==> !(
                #[trigger] old(self)@.sampled_by[j].task_info_id == task_info_id
                    && old(self)@.sampled_by[j].people_id == people.id)),
            r is Ok ==> final(self)@ == (StoreModel {
                sampled_by: old(self)@.sampled_by.push(
                    TaskInfoToPeopleRelation { task_info_id, people_id: people.id },
                ),
                ..old(self)@
            }),
            r is Err ==> *final(self) == *old(self) && (r->Err_0 matches Error::Store),
    {
        add_rel(&mut self.sampled_by, task_info_id, people.id)
    }

    /// Removes a person from an info revision's samplers; absence is no
    /// error.
    pub fn delete_sampled_by(&mut self, task_info_id: i64, people_id: i64)
        requires
            old(self).wf(),
        ensures
            final(self).wf(),
            final(self)@ == (StoreModel {
                sampled_by: rels_without_pair(old(self)@.sampled_by, task_info_id, people_id),
                ..old(self)@
            }),
    {
        remove_rel(&mut self.sampled_by, task_info_id, people_id);
    }

    /// The index of the info row carrying an identifier, if any.
    fn find_task_info(&self, info_id: i64) -> (r: Option<usize>)
        ensures
            (match r {
                Some(i) => i < self@.task_infos.len() && self@.task_infos[i as int].id == info_id,
                None => forall|j: int|
                    0 <= j < self@.task_infos.len() ==> #[trigger] self@.task_infos[j].id
                        != info_id,
            }),
    {
        let n = self.task_infos.len();
        let mut k: usize = 0;
        while k < n
            invariant
                k <= n,
                n == self@.task_infos.len(),
                forall|j: int| 0 <= j < k ==> #[trigger] self@.task_infos[j].id != info_id,
            decreases n - k,
        {
            if self.task_infos[k].id == info_id {
                return Some(k);
            }
            k += 1;
        }
        None
    }

    /// Whether a task owns the info revision carrying an identifier.
    fn info_owned(&self, info_id: i64, task_id: i64) -> (r: bool)
        requires
            self.wf(),
        ensures
            r == info_owned_by(self@.task_infos, info_id, task_id),
    {
        match self.find_task_info(info_id) {
            None => false,
            Some(i) => {
                let owned = self.task_infos[i].task_id == task_id;
                proof {
                    if !owned && info_owned_by(self@.task_infos, info_id, task_id) {
                        let j = choose|j: int|
                            0 <= j < self@.task_infos.len() && #[trigger] self@.task_infos[j].id
                                == info_id && self@.task_infos[j].task_id == task_id;
                        assert(j == i as int);
                    }
                }
                owned
            },
        }
    }

    /// Deletes one info revision, cascading to its membership rows; a
    /// missing revision changes nothing and is no error.
    pub fn delete_task_info(&mut self, task_info_id: i64)
        requires
            old(self).wf(),
        ensures
            final(self).wf(),
            final(self)@ == (StoreModel {
                task_infos: infos_without(old(self)@.task_infos, task_info_id),
                minuted_by: rels_without_info(old(self)@.minuted_by, task_info_id),
                sampled_by: rels_without_info(old(self)@.sampled_by, task_info_id),
                ..old(self)@
            }),
    {
        let ghost infos0 = self@.task_infos;
        let mut kept_infos: Vec<TaskInfoRow> = Vec::new();
        proof {
            assert(infos_without(infos0.take(0), task_info_id) =~= Seq::<TaskInfoRow>::empty());
        }
        let n = self.task_infos.len();
        let mut k: usize = 0;
        while k < n
            invariant
                k <= n,
                n == infos0.len(),
                *self == *old(self),
                self.wf(),
                infos0 == self@.task_infos,
                kept_infos@ == infos_without(infos0.take(k as int), task_info_id),
                forall|a: int|
                    0 <= a < kept_infos@.len() ==> exists|j: int|
                        0 <= j < k && infos0[j] == #[trigger] kept_infos@[a],
                forall|a: int, b: int|
                    0 <= a < b < kept_infos@.len() ==> kept_infos@[a].id < kept_infos@[b].id,
            decreases n - k,
        {
            proof {
                assert(infos0.take(k as int + 1).drop_last() =~= infos0.take(k as int));
                assert(infos0.take(k as int + 1).last() == infos0[k as int]);
            }
            let row = &self.task_infos[k];
            if row.id != task_info_id {
                kept_infos.push(row.clone());
            }
            k += 1;
        }
        proof {
            assert(infos0.take(n as int) =~= infos0);
        }
        proof {
            assert forall|a: int| 0 <= a < kept_infos@.len() implies #[trigger] kept_infos@[a].id
                < old(self)@.next_task_info_id by {
                let j = choose|j: int| 0 <= j < infos0.len() && infos0[j] == kept_infos@[a];
            }
        }
        self.task_infos = kept_infos;
        remove_rels_of_info(&mut self.minuted_by, task_info_id);
        remove_rels_of_info(&mut self.sampled_by, task_info_id);
    }

    /// Deletes a task, cascading to its info revisions (and their membership
    /// rows), its sample set and its sensor rows; a missing task changes
    /// nothing and is no error.
    pub fn delete_task(&mut self, task_id: i64)
        requires
            old(self).wf(),
        ensures
            final(self).wf(),
            final(self)@ == (StoreModel {
                tasks: tasks_without(old(self)@.tasks, task_id),
                task_infos: infos_without_task(old(self)@.task_infos, task_id),
                sample_sets: sample_rows_without_task(old(self)@.sample_sets, task_id),
                sensor_rows: rows_without_task(old(self)@.sensor_rows, task_id),
                minuted_by: rels_without_task(
                    old(self)@.minuted_by,
                    old(self)@.task_infos,
                    task_id,
                ),
                sampled_by: rels_without_task(
                    old(self)@.sampled_by,
                    old(self)@.task_infos,
                    task_id,
                ),
                ..old(self)@
            }),
    {
        let ghost infos0 = self@.task_infos;

        let ghost tasks0 = self@.tasks;
        let mut kept_tasks: Vec<TaskRow> = Vec::new();
        proof {
            assert(tasks_without(tasks0.take(0), task_id) =~= Seq::<TaskRow>::empty());
        }
        let n_tasks = self.tasks.len();
        let mut k: usize = 0;
        while k < n_tasks
            invariant
                k <= n_tasks,
                n_tasks == tasks0.len(),
                *self == *old(self),
                self.wf(),
                tasks0 == self@.tasks,
                kept_tasks@ == tasks_without(tasks0.take(k as int), task_id),
                forall|a: int|
                    0 <= a < kept_tasks@.len() ==> exists|j: int|
                        0 <= j < k && tasks0[j] == #[trigger] kept_tasks@[a],
                forall|a: int, b: int|
                    0 <= a < b < kept_tasks@.len() ==> kept_tasks@[a].id != kept_tasks@[b].id,
            decreases n_tasks - k,
        {
            proof {
                assert(tasks0.take(k as int + 1).drop_last() =~= tasks0.take(k as int));
                assert(tasks0.take(k as int + 1).last() == tasks0[k as int]);
            }
            let row = &self.tasks[k];
            if row.id != task_id {
                kept_tasks.push(row.clone());
            }
            k += 1;
        }
        proof {
            assert(tasks0.take(n_tasks as int) =~= tasks0);
        }

        let mut kept_infos: Vec<TaskInfoRow> = Vec::new();
        proof {
            assert(infos_without_task(infos0.take(0), task_id) =~= Seq::<TaskInfoRow>::empty());
        }
        let n_infos = self.task_infos.len();
        let mut k2: usize = 0;
        while k2 < n_infos
            invariant
                k2 <= n_infos,
                n_infos == infos0.len(),
                *self == *old(self),
                self.wf(),
                infos0 == self@.task_infos,
                kept_infos@ == infos_without_task(infos0.take(k2 as int), task_id),
                forall|a: int|
                    0 <= a < kept_infos@.len() ==> exists|j: int|
                        0 <= j < k2 && infos0[j] == #[trigger] kept_infos@[a],
                forall|a: int, b: int|
                    0 <= a < b < kept_infos@.len() ==> kept_infos@[a].id < kept_infos@[b].id,
            decreases n_infos - k2,
        {
            proof {
                assert(infos0.take(k2 as int + 1).drop_last() =~= infos0.take(k2 as int));
                assert(infos0.take(k2 as int + 1).last() == infos0[k2 as int]);
            }
            let row = &self.task_infos[k2];
            if row.task_id != task_id {
                kept_infos.push(row.clone());
            }
            k2 += 1;
        }
        proof {
            assert(infos0.take(n_infos as int) =~= infos0);
        }

        let ghost samples0 = self@.sample_sets;
        let mut kept_samples: Vec<SampleSetRow> = Vec::new();
        proof {
            assert(sample_rows_without_task(samples0.take(0), task_id) =~= Seq::<
                SampleSetRow,
            >::empty());
        }
        let n_samples = self.sample_sets.len();
        let mut k3: usize = 0;
        while k3 < n_samples
            invariant
                k3 <= n_samples,
                n_samples == samples0.len(),
                *self == *old(self),
                self.wf(),
                samples0 == self@.sample_sets,
                kept_samples@ == sample_rows_without_task(samples0.take(k3 as int), task_id),
                forall|a: int|
                    0 <= a < kept_samples@.len() ==> exists|j: int|
                        0 <= j < k3 && samples0[j] == #[trigger] kept_samples@[a],
                unique_keys(kept_samples@),
                positive_qtys(kept_samples@),
            decreases n_samples - k3,
        {
            proof {
                assert(samples0.take(k3 as int + 1).drop_last() =~= samples0.take(k3 as int));
                assert(samples0.take(k3 as int + 1).last() == samples0[k3 as int]);
            }
            let row = self.sample_sets[k3];
            if row.task_id != task_id {
                kept_samples.push(row);
            }
            k3 += 1;
        }
        proof {
            assert(samples0.take(n_samples as int) =~= samples0);
        }

        let ghost sensor0 = self@.sensor_rows;
        let mut kept_sensor: Vec<SensorRecord> = Vec::new();
        proof {
            assert(rows_without_task(sensor0.take(0), task_id) =~= Seq::<SensorRecord>::empty());
        }
        let n_sensor = self.sensor_rows.len();
        let mut k4: usize = 0;
        while k4 < n_sensor
            invariant
                k4 <= n_sensor,
                n_sensor == sensor0.len(),
                *self == *old(self),
                sensor0 == self@.sensor_rows,
                kept_sensor@ == rows_without_task(sensor0.take(k4 as int), task_id),
            decreases n_sensor - k4,
        {
            proof {
                assert(sensor0.take(k4 as int + 1).drop_last() =~= sensor0.take(k4 as int));
                assert(sensor0.take(k4 as int + 1).last() == sensor0[k4 as int]);
            }
            let row = self.sensor_rows[k4];
            if row.task_id != task_id {
                kept_sensor.push(row);
            }
            k4 += 1;
        }
        proof {
            assert(sensor0.take(n_sensor as int) =~= sensor0);
        }

        let kept_minuted = self.keep_rels_outside_task(&self.minuted_by, task_id);
        let kept_sampled = self.keep_rels_outside_task(&self.sampled_by, task_id);

        proof {
            assert forall|a: int| 0 <= a < kept_tasks@.len() implies #[trigger] kept_tasks@[a].id
                < old(self)@.next_task_id by {
                let j = choose|j: int| 0 <= j < tasks0.len() && tasks0[j] == kept_tasks@[a];
            }
            assert forall|a: int| 0 <= a < kept_infos@.len() implies #[trigger] kept_infos@[a].id
                < old(self)@.next_task_info_id by {
                let j = choose|j: int| 0 <= j < infos0.len() && infos0[j] == kept_infos@[a];
            }
        }
        self.tasks = kept_tasks;
        self.task_infos = kept_infos;
        self.sample_sets = kept_samples;
        self.sensor_rows = kept_sensor;
        self.minuted_by = kept_minuted;
        self.sampled_by = kept_sampled;
    }

    /// The membership rows that survive a task's deletion: those owned by no
    /// info revision of the task.
    fn keep_rels_outside_task(&self, rels: &Vec<TaskInfoToPeopleRelation>, task_id: i64) -> (r:
        Vec<TaskInfoToPeopleRelation>)
        requires
            self.wf(),
            unique_rels(rels@),
        ensures
            r@ == rels_without_task(rels@, self@.task_infos, task_id),
            unique_rels(r@),
    {
        let ghost rels0 = rels@;
        let mut kept: Vec<TaskInfoToPeopleRelation> = Vec::new();
        proof {
            assert(rels_without_task(rels0.take(0), self@.task_infos, task_id) =~= Seq::<
                TaskInfoToPeopleRelation,
            >::empty());
        }
        let n = rels.len();
        let mut k: usize = 0;
        while k < n
            invariant
                k <= n,
                n == rels0.len(),
                rels0 == rels@,
                self.wf(),
                unique_rels(rels0),
                kept@ == rels_without_task(rels0.take(k as int), self@.task_infos, task_id),
                forall|a: int|
                    0 <= a < kept@.len() ==> exists|j: int|
                        0 <= j < k && rels0[j] == #[trigger] kept@[a],
                unique_rels(kept@),
            decreases n - k,
        {
            proof {
                assert(rels0.take(k as int + 1).drop_last() =~= rels0.take(k as int));
                assert(rels0.take(k as int + 1).last() == rels0[k as int]);
            }
            let rel = rels[k];
            if !self.info_owned(rel.task_info_id, task_id) {
                kept.push(rel);
            }
            k += 1;
        }
        proof {
            assert(rels0.take(n as int) =~= rels0);
        }
        kept
    }
}

/// Removes every membership row of one info revision.
fn remove_rels_of_info(rels: &mut Vec<TaskInfoToPeopleRelation>, info_id: i64)
    requires
        unique_rels(old(rels)@),
    ensures
        unique_rels(final(rels)@),
        final(rels)@ == rels_without_info(old(rels)@, info_id),
{
    let ghost rels0 = rels@;
    let mut kept: Vec<TaskInfoToPeopleRelation> = Vec::new();
    proof {
        assert(rels_without_info(rels0.take(0), info_id) =~= Seq::<
            TaskInfoToPeopleRelation,
        >::empty());
    }
    let n = rels.len();
    let mut k: usize = 0;
    while k < n
        invariant
            k <= n,
            n == rels0.len(),
            rels@ == rels0,
            unique_rels(rels0),
            kept@ == rels_without_info(rels0.take(k as int), info_id),
            forall|a: int|
                0 <= a < kept@.len() ==> exists|j: int|
                    0 <= j < k && rels0[j] == #[trigger] kept@[a],
            unique_rels(kept@),
        decreases n - k,
    {
        proof {
            assert(rels0.take(k as int + 1).drop_last() =~= rels0.take(k as int));
            assert(rels0.take(k as int + 1).last() == rels0[k as int]);
        }
        let rel = rels[k];
        if rel.task_info_id != info_id {
            kept.push(rel);
        }
        k += 1;
    }
    proof {
        assert(rels0.take(n as int) =~= rels0);
    }
    *rels = kept;
}

} // verus!
