use nova_bridge::json::{JsonValue, Quantity};
use nova_bridge::serial::to_json_text;

fn num(neg: bool, mantissa: u128, exp10: i32) -> JsonValue {
    JsonValue::Num(Quantity { neg, mantissa, exp10 })
}

#[test]
fn scalars_serialise_to_their_json_text() {
    assert_eq!(to_json_text(&JsonValue::Null), "null");
    assert_eq!(to_json_text(&JsonValue::Bool(true)), "true");
    assert_eq!(to_json_text(&JsonValue::Bool(false)), "false");
    assert_eq!(to_json_text(&num(false, 0, 0)), "0");
    assert_eq!(to_json_text(&num(false, 2800, 0)), "2800");
    assert_eq!(to_json_text(&num(true, 2, 0)), "-2");
    assert_eq!(to_json_text(&num(false, 6705600, -5)), "6705600e-5");
    assert_eq!(to_json_text(&num(false, 15, 3)), "15e3");
}

#[test]
fn exponent_form_reads_back_as_the_same_number() {
    let text = to_json_text(&num(false, 6705600, -5));
    let parsed: f64 = text.parse::<f64>().unwrap();
    assert!((parsed - 67.056).abs() < 1e-12);
}

#[test]
fn strings_are_quoted_and_escaped() {
    assert_eq!(
        to_json_text(&JsonValue::Text("plain".to_string())),
        "\"plain\""
    );
    assert_eq!(
        to_json_text(&JsonValue::Text("say \"hi\" \\ now".to_string())),
        "\"say \\\"hi\\\" \\\\ now\""
    );
    assert_eq!(
        to_json_text(&JsonValue::Text("tab\there".to_string())),
        "\"tab\\u0009here\""
    );
}

#[test]
fn arrays_and_objects_nest_with_separators() {
    let v = JsonValue::Obj(vec![
        (
            "a".to_string(),
            JsonValue::Arr(vec![num(false, 1, 0), JsonValue::Bool(true), JsonValue::Null]),
        ),
        ("b".to_string(), JsonValue::Obj(vec![])),
    ]);
    assert_eq!(to_json_text(&v), "{\"a\":[1,true,null],\"b\":{}}");
    assert_eq!(to_json_text(&JsonValue::Arr(vec![])), "[]");
}

#[test]
fn serialised_record_is_valid_json_for_serde() {
    let v = JsonValue::Obj(vec![
        ("ball_speed_meters_per_second".to_string(), num(false, 6705600, -5)),
        ("vertical_launch_angle_degrees".to_string(), num(false, 125, -1)),
    ]);
    let text = to_json_text(&v);
    let parsed: serde_json::Value = serde_json::from_str(&text).expect("valid JSON");
    let speed = parsed["ball_speed_meters_per_second"].as_f64().unwrap();
    assert!((speed - 67.056).abs() < 1e-12);
    let vla = parsed["vertical_launch_angle_degrees"].as_f64().unwrap();
    assert!((vla - 12.5).abs() < 1e-12);
}
