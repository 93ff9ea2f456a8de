use vstd::prelude::*;

verus! {

/// A person who can be recorded as having minuted or sampled a task visit.
#[derive(Debug, PartialEq)]
pub struct People {
    pub id: i64,
    pub name: String,
}

/// A pump available for purging and sampling.
#[derive(Debug, PartialEq)]
pub struct Pump {
    pub id: i64,
    pub name: String,
    pub comment: Option<String>,
}

/// A kind of sample that a task's sample set can request.
#[derive(Debug, PartialEq)]
pub struct SampleType {
    pub id: i64,
    pub name: String,
    pub variant: Option<String>,
    pub comment: Option<String>,
}

/// A monitored well that tasks are tied to.
#[derive(Debug, PartialEq)]
pub struct Well {
    pub id: i64,
    pub name: String,
    pub type_: Option<String>,
    pub comment: Option<String>,
}

} // verus!
