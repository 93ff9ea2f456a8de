use water_sampling::catalog::{People, Pump, SampleType, Well};
use water_sampling::error::Error;
use water_sampling::sample_set::SampleSet;
use water_sampling::sensor_data::SensorRecord;
use water_sampling::store::Store;
use water_sampling::task::NewTask;
use water_sampling::task_info::{NewTaskInfo, PeopleId};
use water_sampling::values::FieldValue;

fn text(s: &str) -> FieldValue {
    FieldValue::Text(s.to_string())
}

fn num_float(x: f64) -> FieldValue {
    FieldValue::Num {
        int_rep: None,
        float_bits: Some(x.to_bits()),
    }
}

fn num_int(i: i64) -> FieldValue {
    FieldValue::Num {
        int_rep: Some(i),
        float_bits: Some((i as f64).to_bits()),
    }
}

fn pair(name: &str, value: FieldValue) -> (String, FieldValue) {
    (name.to_string(), value)
}

fn task(store: &mut Store) -> i64 {
    store
        .insert_task(NewTask {
            well_id: 1,
            depth: "10m".to_string(),
        })
        .unwrap()
}

fn blank_info() -> NewTaskInfo {
    NewTaskInfo {
        calibration: None,
        purging_time: None,
        water_level: None,
        pump_id: None,
        pump_depth: None,
        pump_freq: None,
        pump_rate: None,
        hose_setup: None,
        sampling_time: None,
        sample_wt_radium: None,
        comment: None,
    }
}

/// Milliseconds of the wall-clock reading 2024-01-02T03:04:05.123, taken as
/// if it were UTC: the stored value is offset-independent by design.
const WALL_MILLIS: i64 = 1_704_164_645_123;

#[test]
fn task_info_update_parses_timestamps_and_floats() {
    let mut store = Store::new();
    let t = task(&mut store);
    let info_id = store.insert_task_info(t, blank_info()).unwrap();
    let fields = vec![
        pair("purging_time", text("2024-01-02T03:04:05.123+0000")),
        pair("water_level", num_float(1.25)),
        pair("pump_id", num_int(3)),
        pair("hose_setup", text("short")),
    ];
    store.update_task_info(info_id, &fields).unwrap();
    let rows = store.get_task_info(t);
    assert_eq!(rows.len(), 1);
    assert_eq!(rows[0].purging_time, Some(WALL_MILLIS));
    assert_eq!(rows[0].water_level, Some((1.25f64).to_bits()));
    assert_eq!(rows[0].pump_id, Some(3));
    assert_eq!(rows[0].hose_setup, Some("short".to_string()));
}

#[test]
fn timestamp_stores_local_wall_clock_for_any_offset() {
    let mut store = Store::new();
    let t = task(&mut store);
    let info_id = store.insert_task_info(t, blank_info()).unwrap();
    let fields = vec![pair("sampling_time", text("2024-01-02T03:04:05.123+0900"))];
    store.update_task_info(info_id, &fields).unwrap();
    assert_eq!(store.get_task_info(t)[0].sampling_time, Some(WALL_MILLIS));
}

#[test]
fn malformed_timestamp_rolls_back_task_info_update() {
    let mut store = Store::new();
    let t = task(&mut store);
    let info_id = store.insert_task_info(t, blank_info()).unwrap();
    let fields = vec![
        pair("comment", text("kept out by the bad field")),
        pair("purging_time", text("yesterday at nine")),
    ];
    let r = store.update_task_info(info_id, &fields);
    assert!(matches!(r, Err(Error::InvalidValue(ref name)) if name == "purging_time"));
    let rows = store.get_task_info(t);
    assert_eq!(rows[0].comment, None);
    assert_eq!(rows[0].purging_time, None);
}

#[test]
fn unknown_field_rolls_back_task_info_update() {
    let mut store = Store::new();
    let t = task(&mut store);
    let info_id = store.insert_task_info(t, blank_info()).unwrap();
    let fields = vec![
        pair("calibration", text("done by A")),
        pair("task_id", num_int(9)),
    ];
    let r = store.update_task_info(info_id, &fields);
    assert!(matches!(r, Err(Error::UnknownField(ref name)) if name == "task_id"));
    assert_eq!(store.get_task_info(t)[0].calibration, None);
}

#[test]
fn null_clears_a_task_info_column() {
    let mut store = Store::new();
    let t = task(&mut store);
    let info_id = store.insert_task_info(t, blank_info()).unwrap();
    store
        .update_task_info(info_id, &vec![pair("comment", text("noted"))])
        .unwrap();
    assert_eq!(
        store.get_task_info(t)[0].comment,
        Some("noted".to_string())
    );
    store
        .update_task_info(info_id, &vec![pair("comment", FieldValue::Null)])
        .unwrap();
    assert_eq!(store.get_task_info(t)[0].comment, None);
}

#[test]
fn task_info_rows_come_back_most_recent_first() {
    let mut store = Store::new();
    let t = task(&mut store);
    let first = store.insert_task_info(t, blank_info()).unwrap();
    let second = store.insert_task_info(t, blank_info()).unwrap();
    let rows = store.get_task_info(t);
    assert_eq!(rows.len(), 2);
    assert_eq!(rows[0].id, second);
    assert_eq!(rows[1].id, first);
}

#[test]
fn last_timestamp_prefers_the_most_recent_revision() {
    let mut store = Store::new();
    let t = task(&mut store);
    assert_eq!(store.get_last_timestamp(), None);
    let mut early = blank_info();
    early.sampling_time = Some(500);
    let mut late = blank_info();
    late.sampling_time = Some(100);
    store.insert_task_info(t, early).unwrap();
    store.insert_task_info(t, late).unwrap();
    assert_eq!(store.get_last_timestamp(), Some(100));
}

#[test]
fn last_timestamp_skips_revisions_without_one() {
    let mut store = Store::new();
    let t = task(&mut store);
    let mut with_time = blank_info();
    with_time.sampling_time = Some(700);
    store.insert_task_info(t, with_time).unwrap();
    store.insert_task_info(t, blank_info()).unwrap();
    assert_eq!(store.get_last_timestamp(), Some(700));
}

#[test]
fn memberships_add_list_and_delete() {
    let mut store = Store::new();
    let t = task(&mut store);
    let info_id = store.insert_task_info(t, blank_info()).unwrap();
    store.add_minuted_by(info_id, PeopleId { id: 4 }).unwrap();
    store.add_minuted_by(info_id, PeopleId { id: 9 }).unwrap();
    store.add_sampled_by(info_id, PeopleId { id: 2 }).unwrap();
    let minuted: Vec<i64> = store
        .get_minuted_by(info_id)
        .iter()
        .map(|r| r.people_id)
        .collect();
    assert_eq!(minuted, vec![9, 4]);
    let duplicate = store.add_minuted_by(info_id, PeopleId { id: 9 });
    assert!(matches!(duplicate, Err(Error::Store)));
    store.delete_minuted_by(info_id, 9);
    let minuted_after: Vec<i64> = store
        .get_minuted_by(info_id)
        .iter()
        .map(|r| r.people_id)
        .collect();
    assert_eq!(minuted_after, vec![4]);
    store.delete_minuted_by(info_id, 9);
    assert_eq!(store.get_minuted_by(info_id).len(), 1);
    assert_eq!(store.get_sampled_by(info_id).len(), 1);
}

#[test]
fn delete_task_info_cascades_to_memberships() {
    let mut store = Store::new();
    let t = task(&mut store);
    let kept = store.insert_task_info(t, blank_info()).unwrap();
    let doomed = store.insert_task_info(t, blank_info()).unwrap();
    store.add_minuted_by(kept, PeopleId { id: 1 }).unwrap();
    store.add_minuted_by(doomed, PeopleId { id: 2 }).unwrap();
    store.add_sampled_by(doomed, PeopleId { id: 3 }).unwrap();
    store.delete_task_info(doomed);
    let rows = store.get_task_info(t);
    assert_eq!(rows.len(), 1);
    assert_eq!(rows[0].id, kept);
    assert!(store.get_minuted_by(doomed).is_empty());
    assert!(store.get_sampled_by(doomed).is_empty());
    assert_eq!(store.get_minuted_by(kept).len(), 1);
}

#[test]
fn delete_task_cascades_to_everything_it_owns() {
    let mut store = Store::new();
    let doomed = task(&mut store);
    let kept = task(&mut store);
    let doomed_info = store.insert_task_info(doomed, blank_info()).unwrap();
    let kept_info = store.insert_task_info(kept, blank_info()).unwrap();
    store.add_minuted_by(doomed_info, PeopleId { id: 1 }).unwrap();
    store.add_sampled_by(kept_info, PeopleId { id: 2 }).unwrap();
    store
        .update_sample_set(doomed, &vec![SampleSet { id: 1, qty: 2 }])
        .unwrap();
    store
        .update_sample_set(kept, &vec![SampleSet { id: 1, qty: 3 }])
        .unwrap();
    let reading = SensorRecord {
        task_id: doomed,
        datetime: 10,
        cndct: 0,
        temp_internal: 0,
        spcndct: 0,
        sa: None,
        resis: None,
        wtr_d: None,
        tds: None,
        turbidity: None,
        ph: 0,
        ph_mv: None,
        orp: 0,
        do_con: 0,
        do_sat: 0,
        ppo2: None,
        temp_sensor: None,
        v: None,
        batt: None,
        pres_baro: None,
        pres: None,
        depth: None,
    };
    store.insert_sensor_data(doomed, &vec![reading]).unwrap();
    store.delete_task(doomed);
    assert!(store.get_task(doomed).is_none());
    assert!(store.get_task_info(doomed).is_empty());
    assert!(store.get_sample_set(doomed).is_empty());
    assert!(store.get_sensor_data(doomed).is_empty());
    assert!(store.get_minuted_by(doomed_info).is_empty());
    assert!(store.get_task(kept).is_some());
    assert_eq!(store.get_sample_set(kept).len(), 1);
    assert_eq!(store.get_sampled_by(kept_info).len(), 1);
}

#[test]
fn catalogs_come_back_as_injected() {
    let people = vec![People {
        id: 1,
        name: "A. Sampler".to_string(),
    }];
    let pumps = vec![Pump {
        id: 2,
        name: "P-100".to_string(),
        comment: None,
    }];
    let wells = vec![Well {
        id: 3,
        name: "W-7".to_string(),
        type_: Some("monitoring".to_string()),
        comment: None,
    }];
    let sample_types = vec![SampleType {
        id: 4,
        name: "radium".to_string(),
        variant: None,
        comment: Some("weighted".to_string()),
    }];
    let store = Store::with_catalogs(people, pumps, wells, sample_types);
    assert_eq!(store.list_people().len(), 1);
    assert_eq!(store.list_people()[0].name, "A. Sampler".to_string());
    assert_eq!(store.list_pumps()[0].id, 2);
    assert_eq!(store.list_wells()[0].type_, Some("monitoring".to_string()));
    assert_eq!(store.list_sample_types()[0].name, "radium".to_string());
}
