use nova_bridge::json::{json_get, JsonValue, Quantity};
use nova_bridge::mapper::map_nova_shot_to_ogc;
use nova_bridge::serial::to_json_text;

fn num(neg: bool, mantissa: u128, exp10: i32) -> JsonValue {
    JsonValue::Num(Quantity { neg, mantissa, exp10 })
}

fn obj(fields: Vec<(&str, JsonValue)>) -> JsonValue {
    JsonValue::Obj(fields.into_iter().map(|(k, v)| (k.to_string(), v)).collect())
}

fn text(s: &str) -> JsonValue {
    JsonValue::Text(s.to_string())
}

fn expect_num(v: &JsonValue, key: &str) -> Quantity {
    match json_get(v, key) {
        Some(JsonValue::Num(q)) => *q,
        other => panic!("expected a number under {key}, found {other:?}"),
    }
}

#[test]
fn canonical_record_passes_through_unchanged() {
    let canonical = obj(vec![
        ("ball_speed_meters_per_second", num(false, 70, 0)),
        ("vertical_launch_angle_degrees", num(false, 125, -1)),
        ("extra", text("kept verbatim")),
    ]);
    let mapped = map_nova_shot_to_ogc(&canonical).expect("canonical record must map");
    assert_eq!(to_json_text(&mapped), to_json_text(&canonical));
}

#[test]
fn imperial_speed_converts_exactly() {
    let device = obj(vec![
        ("Units", text("Yards")),
        ("BallData", obj(vec![("Speed", num(false, 100, 0))])),
    ]);
    let mapped = map_nova_shot_to_ogc(&device).expect("record with ball data must map");
    // 100 mph is exactly 100 * 0.44704 = 44.704 metres per second.
    let speed = expect_num(&mapped, "ball_speed_meters_per_second");
    assert_eq!(speed, Quantity { neg: false, mantissa: 4470400, exp10: -5 });
    // The source value is preserved under the customary units.
    let customary = json_get(&mapped, "us_customary_units").expect("customary sub-record");
    let mph = expect_num(customary, "ball_speed_mph");
    assert_eq!(mph, Quantity { neg: false, mantissa: 100, exp10: 0 });
}

#[test]
fn metric_units_keep_speed_and_convert_club_speed() {
    let device = obj(vec![
        ("Units", text("Meters")),
        ("BallData", obj(vec![("Speed", num(false, 31, 0))])),
        ("ClubData", obj(vec![("Speed", num(false, 30, 0))])),
    ]);
    let mapped = map_nova_shot_to_ogc(&device).expect("record with ball data must map");
    let speed = expect_num(&mapped, "ball_speed_meters_per_second");
    assert_eq!(speed, Quantity { neg: false, mantissa: 31, exp10: 0 });
    // 30 m/s is 30 / 0.44704 mph, carried to ten more decimal places and
    // rounded toward zero: 30 * 3125 * 10^10 / 1397 = 671080887616.
    let customary = json_get(&mapped, "us_customary_units").expect("customary sub-record");
    let club = expect_num(customary, "club_speed_mph");
    assert_eq!(club, Quantity { neg: false, mantissa: 671080887616, exp10: -10 });
    let approx = club.mantissa as f64 * 1e-10;
    assert!((approx - 30.0 / 0.44704).abs() < 1e-6);
}

#[test]
fn record_without_ball_data_maps_to_nothing() {
    let device = obj(vec![
        ("Units", text("Yards")),
        ("SomethingElse", num(false, 1, 0)),
    ]);
    assert!(map_nova_shot_to_ogc(&device).is_none());
    assert!(map_nova_shot_to_ogc(&obj(vec![])).is_none());
    // Club data alone is no canonical record either.
    let club_only = obj(vec![
        ("Units", text("Meters")),
        ("ClubData", obj(vec![("Speed", num(false, 30, 0))])),
    ]);
    assert!(map_nova_shot_to_ogc(&club_only).is_none());
}

#[test]
fn device_shot_line_maps_to_expected_canonical_record() {
    // {"BallData":{"Speed":150,"VLA":12.5,"HLA":-2,"TotalSpin":2800,
    //  "SpinAxis":6},"Units":"Yards"}
    let device = obj(vec![
        (
            "BallData",
            obj(vec![
                ("Speed", num(false, 150, 0)),
                ("VLA", num(false, 125, -1)),
                ("HLA", num(true, 2, 0)),
                ("TotalSpin", num(false, 2800, 0)),
                ("SpinAxis", num(false, 6, 0)),
            ]),
        ),
        ("Units", text("Yards")),
    ]);
    let mapped = map_nova_shot_to_ogc(&device).expect("device shot must map");

    let speed = expect_num(&mapped, "ball_speed_meters_per_second");
    assert_eq!(speed, Quantity { neg: false, mantissa: 6705600, exp10: -5 });
    let approx = speed.mantissa as f64 * 1e-5;
    assert!((approx - 67.056).abs() < 1e-9);

    assert_eq!(
        expect_num(&mapped, "vertical_launch_angle_degrees"),
        Quantity { neg: false, mantissa: 125, exp10: -1 }
    );
    assert_eq!(
        expect_num(&mapped, "horizontal_launch_angle_degrees"),
        Quantity { neg: true, mantissa: 2, exp10: 0 }
    );
    assert_eq!(
        expect_num(&mapped, "total_spin_rpm"),
        Quantity { neg: false, mantissa: 2800, exp10: 0 }
    );
    assert_eq!(
        expect_num(&mapped, "spin_axis_degrees"),
        Quantity { neg: false, mantissa: 6, exp10: 0 }
    );

    let customary = json_get(&mapped, "us_customary_units").expect("customary sub-record");
    assert_eq!(
        expect_num(customary, "ball_speed_mph"),
        Quantity { neg: false, mantissa: 150, exp10: 0 }
    );
}

#[test]
fn units_detection_is_case_insensitive_and_defaults_to_imperial() {
    for units in ["YARDS", "yards", "Mph", "contains mph inside"] {
        let device = obj(vec![
            ("Units", text(units)),
            ("BallData", obj(vec![("Speed", num(false, 100, 0))])),
        ]);
        let mapped = map_nova_shot_to_ogc(&device).unwrap();
        let speed = expect_num(&mapped, "ball_speed_meters_per_second");
        assert_eq!(speed.mantissa, 4470400, "units string {units:?}");
    }
    // No Units field at all: imperial is assumed.
    let device = obj(vec![("BallData", obj(vec![("Speed", num(false, 100, 0))]))]);
    let mapped = map_nova_shot_to_ogc(&device).unwrap();
    assert_eq!(expect_num(&mapped, "ball_speed_meters_per_second").mantissa, 4470400);
}

#[test]
fn optional_spins_come_through_when_present() {
    let device = obj(vec![
        ("Units", text("Meters")),
        (
            "BallData",
            obj(vec![
                ("Speed", num(false, 60, 0)),
                ("BackSpin", num(false, 2500, 0)),
                ("SideSpin", num(true, 300, 0)),
            ]),
        ),
    ]);
    let mapped = map_nova_shot_to_ogc(&device).unwrap();
    assert_eq!(expect_num(&mapped, "backspin_rpm").mantissa, 2500);
    let side = expect_num(&mapped, "sidespin_rpm");
    assert!(side.neg);
    assert_eq!(side.mantissa, 300);
    // No customary values were collected: metric source, no club data.
    assert!(json_get(&mapped, "us_customary_units").is_none());
}
