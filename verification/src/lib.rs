//! Task-data mutation and time-series ingestion for a field-sampling service.
//!
//! The library models the durable record store of a well-sampling operation
//! and verifies the operations that mutate it: whitelist-driven partial
//! updates of task and task-info rows, sample-set reconciliation with
//! delete-on-zero semantics, sensor time-series insertion, retrieval and
//! clearing, and the dispatch of uploaded instrument logs by file extension.
//! Every multi-row operation is all-or-nothing: a validation failure leaves
//! the store exactly as it was.

pub mod catalog;
pub mod error;
pub mod ingest;
pub mod sample_set;
pub mod sensor_data;
pub mod store;
pub mod task;
pub mod task_info;
pub mod values;

pub use catalog::{People, Pump, SampleType, Well};
pub use error::Error;
pub use ingest::LogFormat;
pub use sample_set::SampleSet;
pub use sensor_data::SensorRecord;
pub use store::{Store, StoreModel};
pub use task::NewTask;
pub use task_info::{NewTaskInfo, PeopleId, TaskInfoToPeopleRelation};
pub use values::FieldValue;
