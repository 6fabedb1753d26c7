use nova_bridge::json::{JsonValue, Quantity};
use nova_bridge::shot::{computation_outcome, prepare_shot, ShotError};

fn num(mantissa: u128, exp10: i32) -> JsonValue {
    JsonValue::Num(Quantity { neg: false, mantissa, exp10 })
}

fn obj(fields: Vec<(&str, JsonValue)>) -> JsonValue {
    JsonValue::Obj(fields.into_iter().map(|(k, v)| (k.to_string(), v)).collect())
}

fn device_record() -> JsonValue {
    obj(vec![
        (
            "BallData",
            obj(vec![
                ("Speed", num(150, 0)),
                ("VLA", num(125, -1)),
                ("TotalSpin", num(2800, 0)),
            ]),
        ),
        ("Units", JsonValue::Text("Yards".to_string())),
    ])
}

#[test]
fn undecodable_line_is_malformed() {
    let r = prepare_shot(None);
    assert!(matches!(r, Err(ShotError::Malformed)));
}

#[test]
fn unrecognizable_record_is_unmappable() {
    let record = obj(vec![("greeting", JsonValue::Text("hello".to_string()))]);
    let r = prepare_shot(Some(&record));
    assert!(matches!(r, Err(ShotError::Unmappable)));
}

#[test]
fn prepared_record_is_one_canonical_json_line() {
    let canonical = prepare_shot(Some(&device_record())).expect("record maps");
    assert_eq!(
        canonical,
        "{\"ball_speed_meters_per_second\":6705600e-5,\
         \"vertical_launch_angle_degrees\":125e-1,\
         \"total_spin_rpm\":2800,\
         \"us_customary_units\":{\"ball_speed_mph\":150}}"
    );
}

#[test]
fn device_shot_comes_back_enriched() {
    let canonical = prepare_shot(Some(&device_record())).expect("record maps");
    let outcome = opengolfcoach::bindings::calculate_derived_values(&canonical);
    let enriched = computation_outcome(outcome).expect("computation accepts the record");
    // The computation step adds its derived values under one key and
    // keeps the canonical inputs.
    let parsed: serde_json::Value = serde_json::from_str(&enriched).expect("enriched is JSON");
    assert!(parsed.get("open_golf_coach").is_some());
    let speed = parsed["ball_speed_meters_per_second"].as_f64().unwrap();
    assert!((speed - 67.056).abs() < 1e-9);
}

#[test]
fn computation_failure_becomes_a_computation_error() {
    let r = computation_outcome(Err("rejected".to_string()));
    match r {
        Err(ShotError::Computation(m)) => assert_eq!(m, "rejected"),
        other => panic!("expected a computation error, found {other:?}"),
    }
}
