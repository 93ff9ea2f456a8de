use vstd::prelude::*;

use crate::error::Error;
use crate::values::{str_eq, FieldValue};

verus! {

/// A new task to insert: its owning well and sampling depth descriptor.
pub struct NewTask {
    pub well_id: i64,
    pub depth: String,
}

/// One durable task row: a field-sampling visit tied to a well.
#[derive(Debug, PartialEq)]
pub struct TaskRow {
    pub id: i64,
    pub well_id: i64,
    pub depth: String,
    pub done: Option<bool>,
    pub serial: Option<String>,
    pub comment: Option<String>,
}

impl Clone for TaskRow {
    fn clone(&self) -> (r: Self)
        ensures
            r == *self,
    {
        TaskRow {
            id: self.id,
            well_id: self.well_id,
            depth: self.depth.clone(),
            done: self.done,
            serial: match &self.serial {
                Some(s) => Some(s.clone()),
                None => None,
            },
            comment: match &self.comment {
                Some(s) => Some(s.clone()),
                None => None,
            },
        }
    }
}

/// One typed update to a whitelisted column of a task row.
pub enum TaskField {
    Done(bool),
    Serial(String),
    WellId(i64),
    Depth(String),
}

/// The whitelist and typing of updatable task columns: what one
/// `(name, value)` pair of an update mapping means. A name outside the
/// whitelist is unknown; a whitelisted name with a value of the wrong
/// semantic type is invalid.
pub open spec fn spec_task_field(name: String, value: FieldValue) -> Result<TaskField, Error> {
    if name@ == "done"@ {
        match value {
            FieldValue::Bool(b) => Ok(TaskField::Done(b)),
            _ => Err(Error::InvalidValue(name)),
        }
    } else if name@ == "serial"@ {
        match value {
            FieldValue::Text(s) => Ok(TaskField::Serial(s)),
            _ => Err(Error::InvalidValue(name)),
        }
    } else if name@ == "well_id"@ {
        match value {
            FieldValue::Num { int_rep: Some(i), .. } => Ok(TaskField::WellId(i)),
            _ => Err(Error::InvalidValue(name)),
        }
    } else if name@ == "depth"@ {
        match value {
            FieldValue::Text(s) => Ok(TaskField::Depth(s)),
            _ => Err(Error::InvalidValue(name)),
        }
    } else {
        Err(Error::UnknownField(name))
    }
}

/// The plan a whole task update mapping compiles to, in submitted order; the
/// first unknown or ill-typed field aborts the batch.
pub open spec fn spec_task_plan(fields: Seq<(String, FieldValue)>) -> Result<Seq<TaskField>, Error>
    decreases fields.len(),
{
    if fields.len() == 0 {
        Ok(Seq::empty())
    } else {
        match spec_task_field(fields[0].0, fields[0].1) {
            Err(e) => Err(e),
            Ok(f) => match spec_task_plan(fields.drop_first()) {
                Err(e) => Err(e),
                Ok(rest) => Ok(seq![f] + rest),
            },
        }
    }
}

/// One whitelisted column written with its typed value.
pub open spec fn spec_apply_task_field(row: TaskRow, f: TaskField) -> TaskRow {
    match f {
        TaskField::Done(b) => TaskRow { done: Some(b), ..row },
        TaskField::Serial(s) => TaskRow { serial: Some(s), ..row },
        TaskField::WellId(w) => TaskRow { well_id: w, ..row },
        TaskField::Depth(d) => TaskRow { depth: d, ..row },
    }
}

/// A whole plan applied in order: a later write to the same column wins.
pub open spec fn spec_apply_task_plan(row: TaskRow, plan: Seq<TaskField>) -> TaskRow
    decreases plan.len(),
{
    if plan.len() == 0 {
        row
    } else {
        spec_apply_task_field(spec_apply_task_plan(row, plan.drop_last()), plan.last())
    }
}

/// The task rows left when one task is deleted, in storage order.
pub open spec fn tasks_without(tasks: Seq<TaskRow>, task_id: i64) -> Seq<TaskRow>
    decreases tasks.len(),
{
    if tasks.len() == 0 {
        Seq::empty()
    } else {
        let rest = tasks_without(tasks.drop_last(), task_id);
        if tasks.last().id != task_id {
            rest.push(tasks.last())
        } else {
            rest
        }
    }
}

/// A plan never rewrites the row's identifier.
pub proof fn lemma_apply_task_plan_id(row: TaskRow, plan: Seq<TaskField>)
    ensures
        spec_apply_task_plan(row, plan).id == row.id,
    decreases plan.len(),
{
    if plan.len() > 0 {
        lemma_apply_task_plan_id(row, plan.drop_last());
    }
}

/// Resolves one `(name, value)` pair against the task whitelist.
fn task_field(name: &String, value: &FieldValue) -> (r: Result<TaskField, Error>)
    ensures
        r == spec_task_field(*name, *value),
{
    if str_eq(name.as_str(), "done") {
        match value {
            FieldValue::Bool(b) => Ok(TaskField::Done(*b)),
            _ => Err(Error::InvalidValue(name.clone())),
        }
    } else if str_eq(name.as_str(), "serial") {
        match value {
            FieldValue::Text(s) => Ok(TaskField::Serial(s.clone())),
            _ => Err(Error::InvalidValue(name.clone())),
        }
    } else if str_eq(name.as_str(), "well_id") {
        match value {
            FieldValue::Num { int_rep: Some(i), .. } => Ok(TaskField::WellId(*i)),
            _ => Err(Error::InvalidValue(name.clone())),
        }
    } else if str_eq(name.as_str(), "depth") {
        match value {
            FieldValue::Text(s) => Ok(TaskField::Depth(s.clone())),
            _ => Err(Error::InvalidValue(name.clone())),
        }
    } else {
        Err(Error::UnknownField(name.clone()))
    }
}

/// Compiles an untyped task update mapping into a plan of typed column
/// writes, in submitted order, rejecting the whole mapping on the first
/// unknown field name or ill-typed value.
pub fn plan_task_update(fields: &Vec<(String, FieldValue)>) -> (r: Result<Vec<TaskField>, Error>)
    ensures
        match spec_task_plan(fields@) {
            Ok(plan) => r matches Ok(p) && p@ == plan,
            Err(e) => r matches Err(e2) && e2 == e,
        },
{
    let mut acc: Vec<TaskField> = Vec::new();
    let n = fields.len();
    proof {
        assert(fields@.skip(0) =~= fields@);
        if spec_task_plan(fields@) is Ok {
            assert(acc@ + spec_task_plan(fields@)->Ok_0 =~= spec_task_plan(fields@)->Ok_0);
        }
    }
    let mut k: usize = 0;
    while k < n
        invariant
            k <= n,
            n == fields@.len(),
            match spec_task_plan(fields@.skip(k as int)) {
                Ok(rest) => spec_task_plan(fields@) == Ok::<Seq<TaskField>, Error>(acc@ + rest),
                Err(e) => spec_task_plan(fields@) == Err::<Seq<TaskField>, Error>(e),
            },
        decreases n - k,
    {
        let pair = &fields[k];
        proof {
            assert(fields@.skip(k as int)[0] == fields@[k as int]);
            assert(fields@.skip(k as int).drop_first() =~= fields@.skip(k as int + 1));
        }
        match task_field(&pair.0, &pair.1) {
            Err(e) => {
                return Err(e);
            },
            Ok(f) => {
                proof {
                    let ghost step = spec_task_plan(fields@.skip(k as int + 1));
                    if step is Ok {
                        assert(acc@ + (seq![f] + step->Ok_0) =~= acc@.push(f) + step->Ok_0);
                    }
                }
                acc.push(f);
            },
        }
        k += 1;
    }
    proof {
        assert(fields@.skip(n as int) =~= Seq::<(String, FieldValue)>::empty());
        assert(spec_task_plan(fields@.skip(n as int)) == Ok::<Seq<TaskField>, Error>(Seq::empty()));
        assert(acc@ + Seq::<TaskField>::empty() =~= acc@);
    }
    Ok(acc)
}

} // verus!
