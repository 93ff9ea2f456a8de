use water_sampling::error::Error;
use water_sampling::sample_set::SampleSet;
use water_sampling::sensor_data::SensorRecord;
use water_sampling::store::Store;
use water_sampling::task::NewTask;
use water_sampling::task_info::NewTaskInfo;
use water_sampling::values::FieldValue;

fn text(s: &str) -> FieldValue {
    FieldValue::Text(s.to_string())
}

fn num_int(i: i64) -> FieldValue {
    FieldValue::Num {
        int_rep: Some(i),
        float_bits: Some((i as f64).to_bits()),
    }
}

fn num_float(x: f64) -> FieldValue {
    FieldValue::Num {
        int_rep: None,
        float_bits: Some(x.to_bits()),
    }
}

fn pair(name: &str, value: FieldValue) -> (String, FieldValue) {
    (name.to_string(), value)
}

fn new_task(well_id: i64, depth: &str) -> NewTask {
    NewTask {
        well_id,
        depth: depth.to_string(),
    }
}

fn empty_info() -> NewTaskInfo {
    NewTaskInfo {
        calibration: None,
        purging_time: None,
        water_level: None,
        pump_id: None,
        pump_depth: None,
        pump_freq: None,
        pump_rate: None,
        hose_setup: None,
        sampling_time: None,
        sample_wt_radium: None,
        comment: None,
    }
}

fn record(task_id: i64, datetime: i64) -> SensorRecord {
    SensorRecord {
        task_id,
        datetime,
        cndct: (1.5f64).to_bits(),
        temp_internal: (20.25f64).to_bits(),
        spcndct: (2.5f64).to_bits(),
        sa: Some((0.125f64).to_bits()),
        resis: None,
        wtr_d: None,
        tds: Some((42.0f64).to_bits()),
        turbidity: None,
        ph: (7.0f64).to_bits(),
        ph_mv: None,
        orp: (0.5f64).to_bits(),
        do_con: (8.0f64).to_bits(),
        do_sat: (99.9f64).to_bits(),
        ppo2: None,
        temp_sensor: Some((19.5f64).to_bits()),
        v: None,
        batt: Some(87),
        pres_baro: None,
        pres: None,
        depth: Some((3.75f64).to_bits()),
    }
}

#[test]
fn insert_task_assigns_increasing_ids() {
    let mut store = Store::new();
    let a = store.insert_task(new_task(1, "10m")).unwrap();
    let b = store.insert_task(new_task(2, "20m")).unwrap();
    assert_eq!(a, 1);
    assert_eq!(b, 2);
    assert!(store.get_task(1).is_some());
    assert!(store.get_task(2).is_some());
    assert!(store.get_task(3).is_none());
}

#[test]
fn task_update_applies_whitelisted_fields() {
    let mut store = Store::new();
    let id = store.insert_task(new_task(1, "10m")).unwrap();
    let fields = vec![
        pair("done", FieldValue::Bool(true)),
        pair("serial", text("S-77")),
        pair("well_id", num_int(7)),
        pair("depth", text("25m")),
    ];
    store.update_task(id, &fields).unwrap();
    let row = store.get_task(id).unwrap();
    assert_eq!(row.done, Some(true));
    assert_eq!(row.serial, Some("S-77".to_string()));
    assert_eq!(row.well_id, 7);
    assert_eq!(row.depth, "25m".to_string());
}

#[test]
fn task_update_later_write_wins() {
    let mut store = Store::new();
    let id = store.insert_task(new_task(1, "10m")).unwrap();
    let fields = vec![pair("depth", text("first")), pair("depth", text("second"))];
    store.update_task(id, &fields).unwrap();
    assert_eq!(store.get_task(id).unwrap().depth, "second".to_string());
}

#[test]
fn unknown_field_rolls_back_task_update() {
    let mut store = Store::new();
    let id = store.insert_task(new_task(1, "10m")).unwrap();
    let fields = vec![
        pair("done", FieldValue::Bool(true)),
        pair("serial", text("S-1")),
        pair("bogus", FieldValue::Bool(true)),
    ];
    let r = store.update_task(id, &fields);
    assert!(matches!(r, Err(Error::UnknownField(ref name)) if name == "bogus"));
    let row = store.get_task(id).unwrap();
    assert_eq!(row.done, None);
    assert_eq!(row.serial, None);
    assert_eq!(row.depth, "10m".to_string());
}

#[test]
fn ill_typed_value_rolls_back_task_update() {
    let mut store = Store::new();
    let id = store.insert_task(new_task(1, "10m")).unwrap();
    let fields = vec![pair("well_id", num_int(5)), pair("done", text("yes"))];
    let r = store.update_task(id, &fields);
    assert!(matches!(r, Err(Error::InvalidValue(ref name)) if name == "done"));
    assert_eq!(store.get_task(id).unwrap().well_id, 1);
}

#[test]
fn task_update_on_missing_id_changes_nothing() {
    let mut store = Store::new();
    let id = store.insert_task(new_task(1, "10m")).unwrap();
    let fields = vec![pair("done", FieldValue::Bool(true))];
    store.update_task(id + 40, &fields).unwrap();
    assert_eq!(store.get_task(id).unwrap().done, None);
}

#[test]
fn zero_qty_delta_without_row_is_noop() {
    let mut store = Store::new();
    let t = store.insert_task(new_task(1, "10m")).unwrap();
    store
        .update_sample_set(t, &vec![SampleSet { id: 5, qty: 0 }])
        .unwrap();
    assert!(store.get_sample_set(t).is_empty());
}

#[test]
fn zero_qty_delta_removes_exactly_one_row() {
    let mut store = Store::new();
    let t = store.insert_task(new_task(1, "10m")).unwrap();
    let batch = vec![
        SampleSet { id: 1, qty: 2 },
        SampleSet { id: 2, qty: 3 },
        SampleSet { id: 3, qty: 4 },
    ];
    store.update_sample_set(t, &batch).unwrap();
    store
        .update_sample_set(t, &vec![SampleSet { id: 2, qty: 0 }])
        .unwrap();
    let left = store.get_sample_set(t);
    assert_eq!(
        left,
        vec![SampleSet { id: 1, qty: 2 }, SampleSet { id: 3, qty: 4 }]
    );
}

#[test]
fn reconcile_upsert_overwrites_quantity() {
    let mut store = Store::new();
    let t = store.insert_task(new_task(1, "10m")).unwrap();
    store
        .update_sample_set(t, &vec![SampleSet { id: 1, qty: 2 }])
        .unwrap();
    store
        .update_sample_set(t, &vec![SampleSet { id: 1, qty: 7 }])
        .unwrap();
    assert_eq!(store.get_sample_set(t), vec![SampleSet { id: 1, qty: 7 }]);
}

#[test]
fn reconcile_twice_leaves_same_state() {
    let mut store = Store::new();
    let t = store.insert_task(new_task(1, "10m")).unwrap();
    store
        .update_sample_set(t, &vec![SampleSet { id: 2, qty: 9 }])
        .unwrap();
    let batch = vec![
        SampleSet { id: 1, qty: 2 },
        SampleSet { id: 2, qty: 0 },
        SampleSet { id: 1, qty: 5 },
        SampleSet { id: 3, qty: 1 },
    ];
    store.update_sample_set(t, &batch).unwrap();
    let once = store.get_sample_set(t);
    store.update_sample_set(t, &batch).unwrap();
    let twice = store.get_sample_set(t);
    assert_eq!(once, twice);
    assert_eq!(
        once,
        vec![SampleSet { id: 1, qty: 5 }, SampleSet { id: 3, qty: 1 }]
    );
}

#[test]
fn negative_quantity_rejects_whole_batch() {
    let mut store = Store::new();
    let t = store.insert_task(new_task(1, "10m")).unwrap();
    let batch = vec![SampleSet { id: 1, qty: 2 }, SampleSet { id: 2, qty: -3 }];
    let r = store.update_sample_set(t, &batch);
    assert!(matches!(r, Err(Error::NegativeQuantity)));
    assert!(store.get_sample_set(t).is_empty());
}

#[test]
fn sample_set_is_listed_in_ascending_type_order() {
    let mut store = Store::new();
    let t = store.insert_task(new_task(1, "10m")).unwrap();
    let batch = vec![
        SampleSet { id: 3, qty: 1 },
        SampleSet { id: 1, qty: 1 },
        SampleSet { id: 2, qty: 1 },
    ];
    store.update_sample_set(t, &batch).unwrap();
    let ids: Vec<i64> = store.get_sample_set(t).iter().map(|e| e.id).collect();
    assert_eq!(ids, vec![1, 2, 3]);
}

#[test]
fn sample_sets_of_two_tasks_stay_apart() {
    let mut store = Store::new();
    let a = store.insert_task(new_task(1, "10m")).unwrap();
    let b = store.insert_task(new_task(1, "20m")).unwrap();
    store
        .update_sample_set(a, &vec![SampleSet { id: 1, qty: 4 }])
        .unwrap();
    store
        .update_sample_set(b, &vec![SampleSet { id: 1, qty: 0 }])
        .unwrap();
    assert_eq!(store.get_sample_set(a), vec![SampleSet { id: 1, qty: 4 }]);
    assert!(store.get_sample_set(b).is_empty());
}

#[test]
fn task_mismatch_discards_whole_sensor_batch() {
    let mut store = Store::new();
    let t = store.insert_task(new_task(1, "10m")).unwrap();
    let batch = vec![record(t, 100), record(t + 1, 200)];
    let r = store.insert_sensor_data(t, &batch);
    assert!(matches!(r, Err(Error::TaskMismatch)));
    assert!(store.get_sensor_data(t).is_empty());
    assert!(store.get_sensor_data(t + 1).is_empty());
}

#[test]
fn sensor_round_trip_keeps_exact_values_in_time_order() {
    let mut store = Store::new();
    let t = store.insert_task(new_task(1, "10m")).unwrap();
    let early = record(t, 100);
    let late = record(t, 200);
    store.insert_sensor_data(t, &vec![late, early]).unwrap();
    let listed = store.get_sensor_data(t);
    assert_eq!(listed, vec![early, late]);
    assert_eq!(listed[0].cndct, (1.5f64).to_bits());
    assert_eq!(listed[0].sa, Some((0.125f64).to_bits()));
    assert_eq!(listed[0].resis, None);
    assert_eq!(listed[0].batt, Some(87));
}

#[test]
fn latest_timestamp_none_then_largest() {
    let mut store = Store::new();
    let t = store.insert_task(new_task(1, "10m")).unwrap();
    assert_eq!(store.get_latest_timestamp(t), None);
    store
        .insert_sensor_data(t, &vec![record(t, 100), record(t, 200)])
        .unwrap();
    assert_eq!(store.get_latest_timestamp(t), Some(200));
}

#[test]
fn clear_with_no_rows_leaves_store_unchanged() {
    let mut store = Store::new();
    let a = store.insert_task(new_task(1, "10m")).unwrap();
    let b = store.insert_task(new_task(1, "20m")).unwrap();
    store.insert_sensor_data(a, &vec![record(a, 100)]).unwrap();
    store.clear_sensor_data(b);
    assert_eq!(store.get_sensor_data(a), vec![record(a, 100)]);
    assert!(store.get_sensor_data(b).is_empty());
}

#[test]
fn clear_removes_only_the_named_task() {
    let mut store = Store::new();
    let a = store.insert_task(new_task(1, "10m")).unwrap();
    let b = store.insert_task(new_task(1, "20m")).unwrap();
    store.insert_sensor_data(a, &vec![record(a, 100)]).unwrap();
    store.insert_sensor_data(b, &vec![record(b, 300)]).unwrap();
    store.clear_sensor_data(a);
    assert!(store.get_sensor_data(a).is_empty());
    assert_eq!(store.get_sensor_data(b), vec![record(b, 300)]);
    store.clear_sensor_data(a);
    assert!(store.get_sensor_data(a).is_empty());
}
