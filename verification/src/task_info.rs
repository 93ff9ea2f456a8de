use vstd::prelude::*;

use crate::error::Error;
use crate::values::{parse_timestamp, parsed_timestamp, str_eq, FieldValue};

verus! {

broadcast use vstd::seq_lib::group_to_multiset_ensures;

/// One durable task-info row: a metadata revision recorded for a task visit.
/// Timestamps are held as milliseconds of the local wall-clock reading;
/// floating-point channels are held as IEEE double bit patterns.
#[derive(Debug, PartialEq)]
pub struct TaskInfoRow {
    pub id: i64,
    pub task_id: i64,
    pub calibration: Option<String>,
    pub purging_time: Option<i64>,
    pub water_level: Option<u64>,
    pub pump_id: Option<i64>,
    pub pump_depth: Option<u64>,
    pub pump_freq: Option<u64>,
    pub pump_rate: Option<u64>,
    pub hose_setup: Option<String>,
    pub sampling_time: Option<i64>,
    pub sample_wt_radium: Option<u64>,
    pub comment: Option<String>,
}

impl Clone for TaskInfoRow {
    fn clone(&self) -> (r: Self)
        ensures
            r == *self,
    {
        TaskInfoRow {
            id: self.id,
            task_id: self.task_id,
            calibration: match &self.calibration {
                Some(s) => Some(s.clone()),
                None => None,
            },
            purging_time: self.purging_time,
            water_level: self.water_level,
            pump_id: self.pump_id,
            pump_depth: self.pump_depth,
            pump_freq: self.pump_freq,
            pump_rate: self.pump_rate,
            hose_setup: match &self.hose_setup {
                Some(s) => Some(s.clone()),
                None => None,
            },
            sampling_time: self.sampling_time,
            sample_wt_radium: self.sample_wt_radium,
            comment: match &self.comment {
                Some(s) => Some(s.clone()),
                None => None,
            },
        }
    }
}

/// The field values of a task-info row to insert; every column but the
/// owning task is optional.
pub struct NewTaskInfo {
    pub calibration: Option<String>,
    pub purging_time: Option<i64>,
    pub water_level: Option<u64>,
    pub pump_id: Option<i64>,
    pub pump_depth: Option<u64>,
    pub pump_freq: Option<u64>,
    pub pump_rate: Option<u64>,
    pub hose_setup: Option<String>,
    pub sampling_time: Option<i64>,
    pub sample_wt_radium: Option<u64>,
    pub comment: Option<String>,
}

/// One membership row linking a task-info revision to a person.
#[derive(Clone, Copy, Debug, PartialEq, Eq, Structural)]
pub struct TaskInfoToPeopleRelation {
    pub task_info_id: i64,
    pub people_id: i64,
}

/// A person reference as submitted by a caller.
#[derive(Clone, Copy, Debug, PartialEq, Eq, Structural)]
pub struct PeopleId {
    pub id: i64,
}

/// One typed update to a whitelisted column of a task-info row. Every
/// column is nullable: `None` clears it.
pub enum TaskInfoField {
    Calibration(Option<String>),
    PurgingTime(Option<i64>),
    WaterLevel(Option<u64>),
    PumpId(Option<i64>),
    PumpDepth(Option<u64>),
    PumpFreq(Option<u64>),
    PumpRate(Option<u64>),
    HoseSetup(Option<String>),
    SamplingTime(Option<i64>),
    SampleWtRadium(Option<u64>),
    Comment(Option<String>),
}

/// A nullable text column: null clears, text is taken as written.
pub open spec fn spec_text_value(name: String, value: FieldValue) -> Result<Option<String>, Error> {
    match value {
        FieldValue::Null => Ok(None),
        FieldValue::Text(s) => Ok(Some(s)),
        _ => Err(Error::InvalidValue(name)),
    }
}

/// A nullable timestamp column: null clears, text must parse in the
/// timestamp encoding.
pub open spec fn spec_time_value(name: String, value: FieldValue) -> Result<Option<i64>, Error> {
    match value {
        FieldValue::Null => Ok(None),
        FieldValue::Text(s) => match parsed_timestamp(s@) {
            Some(t) => Ok(Some(t)),
            None => Err(Error::InvalidValue(name)),
        },
        _ => Err(Error::InvalidValue(name)),
    }
}

/// A nullable double-precision column: null clears, a number is held by its
/// bit pattern.
pub open spec fn spec_float_value(name: String, value: FieldValue) -> Result<Option<u64>, Error> {
    match value {
        FieldValue::Null => Ok(None),
        FieldValue::Num { float_bits: Some(bits), .. } => Ok(Some(bits)),
        _ => Err(Error::InvalidValue(name)),
    }
}

/// A nullable integer column: null clears, the number must be integral.
pub open spec fn spec_int_value(name: String, value: FieldValue) -> Result<Option<i64>, Error> {
    match value {
        FieldValue::Null => Ok(None),
        FieldValue::Num { int_rep: Some(i), .. } => Ok(Some(i)),
        _ => Err(Error::InvalidValue(name)),
    }
}

/// The whitelist and typing of updatable task-info columns: what one
/// `(name, value)` pair of an update mapping means.
pub open spec fn spec_task_info_field(name: String, value: FieldValue) -> Result<
    TaskInfoField,
    Error,
> {
    if name@ == "calibration"@ {
        match spec_text_value(name, value) {
            Ok(v) => Ok(TaskInfoField::Calibration(v)),
            Err(e) => Err(e),
        }
    } else if name@ == "purging_time"@ {
        match spec_time_value(name, value) {
            Ok(v) => Ok(TaskInfoField::PurgingTime(v)),
            Err(e) => Err(e),
        }
    } else if name@ == "water_level"@ {
        match spec_float_value(name, value) {
            Ok(v) => Ok(TaskInfoField::WaterLevel(v)),
            Err(e) => Err(e),
        }
    } else if name@ == "pump_id"@ {
        match spec_int_value(name, value) {
            Ok(v) => Ok(TaskInfoField::PumpId(v)),
            Err(e) => Err(e),
        }
    } else if name@ == "pump_depth"@ {
        match spec_float_value(name, value) {
            Ok(v) => Ok(TaskInfoField::PumpDepth(v)),
            Err(e) => Err(e),
        }
    } else if name@ == "pump_freq"@ {
        match spec_float_value(name, value) {
            Ok(v) => Ok(TaskInfoField::PumpFreq(v)),
            Err(e) => Err(e),
        }
    } else if name@ == "pump_rate"@ {
        match spec_float_value(name, value) {
            Ok(v) => Ok(TaskInfoField::PumpRate(v)),
            Err(e) => Err(e),
        }
    } else if name@ == "hose_setup"@ {
        match spec_text_value(name, value) {
            Ok(v) => Ok(TaskInfoField::HoseSetup(v)),
            Err(e) => Err(e),
        }
    } else if name@ == "sampling_time"@ {
        match spec_time_value(name, value) {
            Ok(v) => Ok(TaskInfoField::SamplingTime(v)),
            Err(e) => Err(e),
        }
    } else if name@ == "sample_wt_radium"@ {
        match spec_float_value(name, value) {
            Ok(v) => Ok(TaskInfoField::SampleWtRadium(v)),
            Err(e) => Err(e),
        }
    } else if name@ == "comment"@ {
        match spec_text_value(name, value) {
            Ok(v) => Ok(TaskInfoField::Comment(v)),
            Err(e) => Err(e),
        }
    } else {
        Err(Error::UnknownField(name))
    }
}

/// The plan a whole task-info update mapping compiles to, in submitted
/// order; the first unknown or ill-typed field aborts the batch.
pub open spec fn spec_task_info_plan(fields: Seq<(String, FieldValue)>) -> Result<
    Seq<TaskInfoField>,
    Error,
>
    decreases fields.len(),
{
    if fields.len() == 0 {
        Ok(Seq::empty())
    } else {
        match spec_task_info_field(fields[0].0, fields[0].1) {
            Err(e) => Err(e),
            Ok(f) => match spec_task_info_plan(fields.drop_first()) {
                Err(e) => Err(e),
                Ok(rest) => Ok(seq![f] + rest),
            },
        }
    }
}

/// One whitelisted column written with its typed value.
pub open spec fn spec_apply_task_info_field(row: TaskInfoRow, f: TaskInfoField) -> TaskInfoRow {
    match f {
        TaskInfoField::Calibration(v) => TaskInfoRow { calibration: v, ..row },
        TaskInfoField::PurgingTime(v) => TaskInfoRow { purging_time: v, ..row },
        TaskInfoField::WaterLevel(v) => TaskInfoRow { water_level: v, ..row },
        TaskInfoField::PumpId(v) => TaskInfoRow { pump_id: v, ..row },
        TaskInfoField::PumpDepth(v) => TaskInfoRow { pump_depth: v, ..row },
        TaskInfoField::PumpFreq(v) => TaskInfoRow { pump_freq: v, ..row },
        TaskInfoField::PumpRate(v) => TaskInfoRow { pump_rate: v, ..row },
        TaskInfoField::HoseSetup(v) => TaskInfoRow { hose_setup: v, ..row },
        TaskInfoField::SamplingTime(v) => TaskInfoRow { sampling_time: v, ..row },
        TaskInfoField::SampleWtRadium(v) => TaskInfoRow { sample_wt_radium: v, ..row },
        TaskInfoField::Comment(v) => TaskInfoRow { comment: v, ..row },
    }
}

/// A whole plan applied in order: a later write to the same column wins.
pub open spec fn spec_apply_task_info_plan(row: TaskInfoRow, plan: Seq<TaskInfoField>) -> TaskInfoRow
    decreases plan.len(),
{
    if plan.len() == 0 {
        row
    } else {
        spec_apply_task_info_field(spec_apply_task_info_plan(row, plan.drop_last()), plan.last())
    }
}

/// A task's info revisions, most recent identifier first (rows are stored in
/// ascending id order).
pub open spec fn infos_for_task_desc(infos: Seq<TaskInfoRow>, task_id: i64) -> Seq<TaskInfoRow>
    decreases infos.len(),
{
    if infos.len() == 0 {
        Seq::empty()
    } else {
        let rest = infos_for_task_desc(infos.drop_last(), task_id);
        if infos.last().task_id == task_id {
            seq![infos.last()] + rest
        } else {
            rest
        }
    }
}

/// Read back from ascending storage order, a task's revisions come strictly
/// descending by identifier, each a stored row of that task.
pub proof fn lemma_infos_desc(infos: Seq<TaskInfoRow>, task_id: i64)
    requires
        forall|i: int, j: int| 0 <= i < j < infos.len() ==> infos[i].id < infos[j].id,
    ensures
        forall|a: int|
            0 <= a < infos_for_task_desc(infos, task_id).len() ==> exists|j: int|
                0 <= j < infos.len() && infos[j] == #[trigger] infos_for_task_desc(
                    infos,
                    task_id,
                )[a],
        forall|a: int, b: int|
            0 <= a < b < infos_for_task_desc(infos, task_id).len()
                ==> infos_for_task_desc(infos, task_id)[a].id > infos_for_task_desc(
                infos,
                task_id,
            )[b].id,
        forall|a: int|
            0 <= a < infos_for_task_desc(infos, task_id).len() ==> (
            #[trigger] infos_for_task_desc(infos, task_id)[a]).task_id == task_id,
    decreases infos.len(),
{
    let desc = infos_for_task_desc(infos, task_id);
    if infos.len() > 0 {
        lemma_infos_desc(infos.drop_last(), task_id);
        let rest = infos_for_task_desc(infos.drop_last(), task_id);
        if infos.last().task_id == task_id {
            assert(desc == seq![infos.last()] + rest);
            assert forall|a: int| 0 <= a < desc.len() implies exists|j: int|
                0 <= j < infos.len() && infos[j] == #[trigger] desc[a] by {
                if a == 0 {
                    assert(infos[infos.len() - 1] == desc[0]);
                } else {
                    assert(desc[a] == rest[a - 1]);
                    let j = choose|j: int|
                        0 <= j < infos.drop_last().len() && infos.drop_last()[j] == rest[a - 1];
                    assert(infos[j] == desc[a]);
                }
            }
            assert forall|a: int, b: int| 0 <= a < b < desc.len() implies desc[a].id
                > desc[b].id by {
                assert(desc[b] == rest[b - 1]);
                let j = choose|j: int|
                    0 <= j < infos.drop_last().len() && infos.drop_last()[j] == rest[b - 1];
                if a == 0 {
                    assert(infos[j].id < infos[infos.len() - 1].id);
                } else {
                    assert(desc[a] == rest[a - 1]);
                }
            }
        } else {
            assert(desc == rest);
            assert forall|a: int| 0 <= a < desc.len() implies exists|j: int|
                0 <= j < infos.len() && infos[j] == #[trigger] desc[a] by {
                let j = choose|j: int|
                    0 <= j < infos.drop_last().len() && infos.drop_last()[j] == rest[a];
                assert(infos[j] == desc[a]);
            }
        }
    }
}

/// The info rows left when one revision is deleted, in storage order.
pub open spec fn infos_without(infos: Seq<TaskInfoRow>, info_id: i64) -> Seq<TaskInfoRow>
    decreases infos.len(),
{
    if infos.len() == 0 {
        Seq::empty()
    } else {
        let rest = infos_without(infos.drop_last(), info_id);
        if infos.last().id != info_id {
            rest.push(infos.last())
        } else {
            rest
        }
    }
}

/// The info rows left when a whole task is deleted, in storage order.
pub open spec fn infos_without_task(infos: Seq<TaskInfoRow>, task_id: i64) -> Seq<TaskInfoRow>
    decreases infos.len(),
{
    if infos.len() == 0 {
        Seq::empty()
    } else {
        let rest = infos_without_task(infos.drop_last(), task_id);
        if infos.last().task_id != task_id {
            rest.push(infos.last())
        } else {
            rest
        }
    }
}

/// A revision's membership rows, in storage order.
pub open spec fn rels_for_info(
    rels: Seq<TaskInfoToPeopleRelation>,
    info_id: i64,
) -> Seq<TaskInfoToPeopleRelation>
    decreases rels.len(),
{
    if rels.len() == 0 {
        Seq::empty()
    } else {
        let rest = rels_for_info(rels.drop_last(), info_id);
        if rels.last().task_info_id == info_id {
            rest.push(rels.last())
        } else {
            rest
        }
    }
}

/// The membership rows left when one membership is deleted, in storage
/// order.
pub open spec fn rels_without_pair(
    rels: Seq<TaskInfoToPeopleRelation>,
    info_id: i64,
    people_id: i64,
) -> Seq<TaskInfoToPeopleRelation>
    decreases rels.len(),
{
    if rels.len() == 0 {
        Seq::empty()
    } else {
        let rest = rels_without_pair(rels.drop_last(), info_id, people_id);
        if rels.last().task_info_id != info_id || rels.last().people_id != people_id {
            rest.push(rels.last())
        } else {
            rest
        }
    }
}

/// The membership rows left when one revision is deleted, in storage order.
pub open spec fn rels_without_info(
    rels: Seq<TaskInfoToPeopleRelation>,
    info_id: i64,
) -> Seq<TaskInfoToPeopleRelation>
    decreases rels.len(),
{
    if rels.len() == 0 {
        Seq::empty()
    } else {
        let rest = rels_without_info(rels.drop_last(), info_id);
        if rels.last().task_info_id != info_id {
            rest.push(rels.last())
        } else {
            rest
        }
    }
}

/// Whether one of a task's revisions owns a membership row.
pub open spec fn info_owned_by(infos: Seq<TaskInfoRow>, info_id: i64, task_id: i64) -> bool {
    exists|j: int|
        0 <= j < infos.len() && #[trigger] infos[j].id == info_id && infos[j].task_id == task_id
}

/// The membership rows left when a whole task is deleted: a row falls with
/// the revision that owns it.
pub open spec fn rels_without_task(
    rels: Seq<TaskInfoToPeopleRelation>,
    infos: Seq<TaskInfoRow>,
    task_id: i64,
) -> Seq<TaskInfoToPeopleRelation>
    decreases rels.len(),
{
    if rels.len() == 0 {
        Seq::empty()
    } else {
        let rest = rels_without_task(rels.drop_last(), infos, task_id);
        if !info_owned_by(infos, rels.last().task_info_id, task_id) {
            rest.push(rels.last())
        } else {
            rest
        }
    }
}

/// Descending by person reference.
pub open spec fn people_desc_sorted(rels: Seq<TaskInfoToPeopleRelation>) -> bool {
    forall|i: int, j: int| 0 <= i <= j < rels.len() ==> rels[i].people_id >= rels[j].people_id
}

/// Sorts membership rows descending by person reference: the result holds
/// exactly the given rows.
pub(crate) fn sort_by_people_desc(v: Vec<TaskInfoToPeopleRelation>) -> (r: Vec<
    TaskInfoToPeopleRelation,
>)
    ensures
        people_desc_sorted(r@),
        r@.to_multiset() == v@.to_multiset(),
{
    let mut out: Vec<TaskInfoToPeopleRelation> = Vec::new();
    proof {
        assert(v@.take(0) =~= Seq::<TaskInfoToPeopleRelation>::empty());
        assert(out@.to_multiset() =~= v@.take(0).to_multiset());
    }
    let mut k: usize = 0;
    while k < v.len()
        invariant
            k <= v@.len(),
            people_desc_sorted(out@),
            out@.to_multiset() == v@.take(k as int).to_multiset(),
        decreases v@.len() - k,
    {
        let rel = v[k];
        let mut pos: usize = out.len();
        while pos > 0 && out[pos - 1].people_id < rel.people_id
            invariant
                pos <= out@.len(),
                forall|i: int| pos <= i < out@.len() ==> out@[i].people_id < rel.people_id,
            decreases pos,
        {
            pos = pos - 1;
        }
        proof {
            out@.insert_ensures(pos as int, rel);
            assert(v@.take(k as int + 1) =~= v@.take(k as int).push(v@[k as int]));
        }
        out.insert(pos, rel);
        k += 1;
    }
    proof {
        assert(v@.take(v@.len() as int) =~= v@);
    }
    out
}

/// A plan never rewrites the row's identifier or its owning task.
pub proof fn lemma_apply_task_info_plan_id(row: TaskInfoRow, plan: Seq<TaskInfoField>)
    ensures
        spec_apply_task_info_plan(row, plan).id == row.id,
        spec_apply_task_info_plan(row, plan).task_id == row.task_id,
    decreases plan.len(),
{
    if plan.len() > 0 {
        lemma_apply_task_info_plan_id(row, plan.drop_last());
    }
}

/// Copies a nullable text value.
pub(crate) fn clone_opt_string(v: &Option<String>) -> (r: Option<String>)
    ensures
        r == *v,
{
    match v {
        Some(s) => Some(s.clone()),
        None => None,
    }
}

/// Resolves a nullable text column's value.
fn text_value(name: &String, value: &FieldValue) -> (r: Result<Option<String>, Error>)
    ensures
        r == spec_text_value(*name, *value),
{
    match value {
        FieldValue::Null => Ok(None),
        FieldValue::Text(s) => Ok(Some(s.clone())),
        _ => Err(Error::InvalidValue(name.clone())),
    }
}

/// Resolves a nullable timestamp column's value.
fn time_value(name: &String, value: &FieldValue) -> (r: Result<Option<i64>, Error>)
    ensures
        r == spec_time_value(*name, *value),
{
    match value {
        FieldValue::Null => Ok(None),
        FieldValue::Text(s) => match parse_timestamp(s.as_str()) {
            Some(t) => Ok(Some(t)),
            None => Err(Error::InvalidValue(name.clone())),
        },
        _ => Err(Error::InvalidValue(name.clone())),
    }
}

/// Resolves a nullable double-precision column's value.
fn float_value(name: &String, value: &FieldValue) -> (r: Result<Option<u64>, Error>)
    ensures
        r == spec_float_value(*name, *value),
{
    match value {
        FieldValue::Null => Ok(None),
        FieldValue::Num { float_bits: Some(bits), .. } => Ok(Some(*bits)),
        _ => Err(Error::InvalidValue(name.clone())),
    }
}

/// Resolves a nullable integer column's value.
fn int_value(name: &String, value: &FieldValue) -> (r: Result<Option<i64>, Error>)
    ensures
        r == spec_int_value(*name, *value),
{
    match value {
        FieldValue::Null => Ok(None),
        FieldValue::Num { int_rep: Some(i), .. } => Ok(Some(*i)),
        _ => Err(Error::InvalidValue(name.clone())),
    }
}

/// Resolves one `(name, value)` pair against the task-info whitelist.
fn task_info_field(name: &String, value: &FieldValue) -> (r: Result<TaskInfoField, Error>)
    ensures
        r == spec_task_info_field(*name, *value),
{
    if str_eq(name.as_str(), "calibration") {
        match text_value(name, value) {
            Ok(v) => Ok(TaskInfoField::Calibration(v)),
            Err(e) => Err(e),
        }
    } else if str_eq(name.as_str(), "purging_time") {
        match time_value(name, value) {
            Ok(v) => Ok(TaskInfoField::PurgingTime(v)),
            Err(e) => Err(e),
        }
    } else if str_eq(name.as_str(), "water_level") {
        match float_value(name, value) {
            Ok(v) => Ok(TaskInfoField::WaterLevel(v)),
            Err(e) => Err(e),
        }
    } else if str_eq(name.as_str(), "pump_id") {
        match int_value(name, value) {
            Ok(v) => Ok(TaskInfoField::PumpId(v)),
            Err(e) => Err(e),
        }
    } else if str_eq(name.as_str(), "pump_depth") {
        match float_value(name, value) {
            Ok(v) => Ok(TaskInfoField::PumpDepth(v)),
            Err(e) => Err(e),
        }
    } else if str_eq(name.as_str(), "pump_freq") {
        match float_value(name, value) {
            Ok(v) => Ok(TaskInfoField::PumpFreq(v)),
            Err(e) => Err(e),
        }
    } else if str_eq(name.as_str(), "pump_rate") {
        match float_value(name, value) {
            Ok(v) => Ok(TaskInfoField::PumpRate(v)),
            Err(e) => Err(e),
        }
    } else if str_eq(name.as_str(), "hose_setup") {
        match text_value(name, value) {
            Ok(v) => Ok(TaskInfoField::HoseSetup(v)),
            Err(e) => Err(e),
        }
    } else if str_eq(name.as_str(), "sampling_time") {
        match time_value(name, value) {
            Ok(v) => Ok(TaskInfoField::SamplingTime(v)),
            Err(e) => Err(e),
        }
    } else if str_eq(name.as_str(), "sample_wt_radium") {
        match float_value(name, value) {
            Ok(v) => Ok(TaskInfoField::SampleWtRadium(v)),
            Err(e) => Err(e),
        }
    } else if str_eq(name.as_str(), "comment") {
        match text_value(name, value) {
            Ok(v) => Ok(TaskInfoField::Comment(v)),
            Err(e) => Err(e),
        }
    } else {
        Err(Error::UnknownField(name.clone()))
    }
}

/// Compiles an untyped task-info update mapping into a plan of typed column
/// writes, in submitted order, rejecting the whole mapping on the first
/// unknown field name or ill-typed value.
pub fn plan_task_info_update(fields: &Vec<(String, FieldValue)>) -> (r: Result<
    Vec<TaskInfoField>,
    Error,
>)
    ensures
        match spec_task_info_plan(fields@) {
            Ok(plan) => r matches Ok(p) && p@ == plan,
            Err(e) => r matches Err(e2) && e2 == e,
        },
{
    let mut acc: Vec<TaskInfoField> = Vec::new();
    let n = fields.len();
    proof {
        assert(fields@.skip(0) =~= fields@);
        if spec_task_info_plan(fields@) is Ok {
            assert(acc@ + spec_task_info_plan(fields@)->Ok_0 =~= spec_task_info_plan(
                fields@,
            )->Ok_0);
        }
    }
    let mut k: usize = 0;
    while k < n
        invariant
            k <= n,
            n == fields@.len(),
            match spec_task_info_plan(fields@.skip(k as int)) {
                Ok(rest) => spec_task_info_plan(fields@) == Ok::<Seq<TaskInfoField>, Error>(
                    acc@ + rest,
                ),
                Err(e) => spec_task_info_plan(fields@) == Err::<Seq<TaskInfoField>, Error>(e),
            },
        decreases n - k,
    {
        let pair = &fields[k];
        proof {
            assert(fields@.skip(k as int)[0] == fields@[k as int]);
            assert(fields@.skip(k as int).drop_first() =~= fields@.skip(k as int + 1));
        }
        match task_info_field(&pair.0, &pair.1) {
            Err(e) => {
                return Err(e);
            },
            Ok(f) => {
                proof {
                    let ghost step = spec_task_info_plan(fields@.skip(k as int + 1));
                    if step is Ok {
                        assert(acc@ + (seq![f] + step->Ok_0) =~= acc@.push(f) + step->Ok_0);
                    }
                }
                acc.push(f);
            },
        }
        k += 1;
    }
    proof {
        assert(fields@.skip(n as int) =~= Seq::<(String, FieldValue)>::empty());
        assert(acc@ + Seq::<TaskInfoField>::empty() =~= acc@);
    }
    Ok(acc)
}

} // verus!
