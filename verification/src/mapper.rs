//! The device-schema to canonical-schema mapper.
//!
//! A device shot record carries nested `BallData`/`ClubData` groups and a
//! `Units` string; the canonical record is a flat mapping of named
//! quantities in SI units, with an optional customary-units sub-record
//! mirroring selected quantities in imperial units.

use crate::json::{JsonV, JsonValue, Quantity, deep_copy, fields_get, get_key, json_get, jv,
    jv_fields, lemma_fields_get_append, lemma_jv_fields_push};
use crate::text::{contains_lowered, contains_lowered_str};
use vstd::prelude::*;

verus! {

/// A record is already canonical when it exposes both canonical-only keys.
pub open spec fn canonical_shape(v: JsonV) -> bool {
    get_key(v, "ball_speed_meters_per_second"@) is Some && get_key(
        v,
        "vertical_launch_angle_degrees"@,
    ) is Some
}

/// The unit system named by the record: the `Units` string when it is
/// text, otherwise the assumed default of yards.
pub open spec fn units_of(v: JsonV) -> Seq<char> {
    match get_key(v, "Units"@) {
        Some(JsonV::Text(s)) => s,
        _ => "Yards"@,
    }
}

/// A units string denotes imperial measures when it names yards or
/// miles per hour, in any letter case.
pub open spec fn imperial_units(units: Seq<char>) -> bool {
    contains_lowered(units, "yard"@) || contains_lowered(units, "mph"@)
}

/// One mile per hour is exactly 0.44704 metres per second, so a speed in
/// miles per hour is scaled by 44704 with the exponent lowered by five.
pub open spec fn mph_to_mps_spec(q: Quantity) -> Quantity {
    Quantity { neg: q.neg, mantissa: (q.mantissa * 44704) as u128, exp10: (q.exp10 - 5) as i32 }
}

/// The inverse conversion: dividing by 0.44704 is multiplying by
/// 100000/44704 = 3125/1397, carried out here to ten more decimal places
/// and rounded toward zero.
pub open spec fn mps_to_mph_spec(q: Quantity) -> Quantity {
    Quantity {
        neg: q.neg,
        mantissa: ((q.mantissa * 31250000000000) / 1397) as u128,
        exp10: (q.exp10 - 10) as i32,
    }
}

/// Miles per hour to metres per second.
pub fn mph_to_mps(q: Quantity) -> (r: Quantity)
    requires
        q.wf(),
    ensures
        r == mph_to_mps_spec(q),
{
    Quantity { neg: q.neg, mantissa: q.mantissa * 44704, exp10: q.exp10 - 5 }
}

/// Metres per second to miles per hour.
pub fn mps_to_mph(q: Quantity) -> (r: Quantity)
    requires
        q.wf(),
    ensures
        r == mps_to_mph_spec(q),
{
    Quantity { neg: q.neg, mantissa: (q.mantissa * 31250000000000) / 1397, exp10: q.exp10 - 10 }
}

/// The numeric member `name` of object `b`, when present.
pub open spec fn num_key(b: JsonV, name: Seq<char>) -> Option<Quantity> {
    match get_key(b, name) {
        Some(JsonV::Num(q)) => Some(q),
        _ => None,
    }
}

/// The numeric ball-data field `name` of record `v`, when present.
pub open spec fn ball_num(v: JsonV, name: Seq<char>) -> Option<Quantity> {
    match get_key(v, "BallData"@) {
        Some(b) => num_key(b, name),
        None => None,
    }
}

/// The numeric club-head speed of record `v`, when present.
pub open spec fn club_speed(v: JsonV) -> Option<Quantity> {
    match get_key(v, "ClubData"@) {
        Some(c) => num_key(c, "Speed"@),
        None => None,
    }
}

/// A single optional object entry.
pub open spec fn opt_entry(key: Seq<char>, v: Option<JsonV>) -> Seq<(Seq<char>, JsonV)> {
    match v {
        Some(u) => seq![(key, u)],
        None => Seq::empty(),
    }
}

/// An optional quantity as an optional JSON number.
pub open spec fn opt_num(q: Option<Quantity>) -> Option<JsonV> {
    match q {
        Some(u) => Some(JsonV::Num(u)),
        None => None,
    }
}

/// The entries of the customary-units sub-record: the source ball speed
/// when the source was imperial, and the club-head speed always in miles
/// per hour.
pub open spec fn customary_fields(v: JsonV) -> Seq<(Seq<char>, JsonV)> {
    let imp = imperial_units(units_of(v));
    opt_entry(
        "ball_speed_mph"@,
        if imp {
            opt_num(ball_num(v, "Speed"@))
        } else {
            None
        },
    ) + opt_entry(
        "club_speed_mph"@,
        match club_speed(v) {
            Some(q) => Some(JsonV::Num(if imp { q } else { mps_to_mph_spec(q) })),
            None => None,
        },
    )
}

/// The entries extracted from the ball-data group of a device record that
/// is not already canonical.
pub open spec fn ball_entries(v: JsonV) -> Seq<(Seq<char>, JsonV)> {
    let imp = imperial_units(units_of(v));
    opt_entry(
        "ball_speed_meters_per_second"@,
        match ball_num(v, "Speed"@) {
            Some(q) => Some(JsonV::Num(if imp { mph_to_mps_spec(q) } else { q })),
            None => None,
        },
    ) + opt_entry("vertical_launch_angle_degrees"@, opt_num(ball_num(v, "VLA"@)))
        + opt_entry("horizontal_launch_angle_degrees"@, opt_num(ball_num(v, "HLA"@)))
        + opt_entry("total_spin_rpm"@, opt_num(ball_num(v, "TotalSpin"@)))
        + opt_entry("spin_axis_degrees"@, opt_num(ball_num(v, "SpinAxis"@)))
        + opt_entry("backspin_rpm"@, opt_num(ball_num(v, "BackSpin"@)))
        + opt_entry("sidespin_rpm"@, opt_num(ball_num(v, "SideSpin"@)))
}

/// The entries of the canonical record built from a device record that is
/// not already canonical.
pub open spec fn mapped_fields(v: JsonV) -> Seq<(Seq<char>, JsonV)> {
    ball_entries(v) + (if customary_fields(v).len() > 0 {
        seq![("us_customary_units"@, JsonV::Obj(customary_fields(v)))]
    } else {
        Seq::empty()
    })
}

/// The canonical record for a device record: the record itself when it is
/// already canonical, the mapped record otherwise, and nothing when no
/// recognizable ball-data field was found at all — club data alone does
/// not make a valid canonical record.
pub open spec fn map_shot(v: JsonV) -> Option<JsonV> {
    if canonical_shape(v) {
        Some(v)
    } else if ball_entries(v).len() == 0 {
        None
    } else {
        Some(JsonV::Obj(mapped_fields(v)))
    }
}

/// Whether `units` names an imperial unit system.
fn is_imperial(units: &str) -> (r: bool)
    ensures
        r == imperial_units(units@),
{
    let y = contains_lowered_str(units, "yard");
    if y {
        true
    } else {
        contains_lowered_str(units, "mph")
    }
}

/// The numeric member `name` of `obj`, when present.
fn num_field(obj: &JsonValue, name: &str) -> (r: Option<Quantity>)
    ensures
        r == num_key(obj@, name@),
{
    match json_get(obj, name) {
        Some(u) => match u {
            JsonValue::Num(q) => Some(*q),
            _ => None,
        },
        None => None,
    }
}

/// Append one optional numeric entry to an object under construction.
fn push_num_entry(out: &mut Vec<(String, JsonValue)>, key: &str, q: Option<Quantity>)
    ensures
        jv_fields(final(out)@) == jv_fields(old(out)@) + opt_entry(key@, opt_num(q)),
{
    match q {
        Some(u) => {
            let ghost before = out@;
            out.push((key.to_owned(), JsonValue::Num(u)));
            proof {
                lemma_jv_fields_push(before, out@[before.len() as int]);
                assert(jv_fields(out@) =~= jv_fields(before) + opt_entry(key@, opt_num(q)));
            }
        },
        None => {
            proof {
                assert(jv_fields(out@) =~= jv_fields(out@) + opt_entry(key@, opt_num(q)));
            }
        },
    }
}

/// Map a Nova shot record into the canonical schema.
///
/// A record that is already canonical passes through unchanged; otherwise
/// the recognizable ball-data fields are extracted and unit conversion
/// applied, with club data mirrored in customary units, and a record with
/// no recognizable ball-data field at all maps to nothing.
pub fn map_nova_shot_to_ogc(input: &JsonValue) -> (r: Option<JsonValue>)
    requires
        !canonical_shape(input@) && imperial_units(units_of(input@)) ==> (ball_num(
            input@,
            "Speed"@,
        ) matches Some(q) ==> q.wf()),
        !canonical_shape(input@) && !imperial_units(units_of(input@)) && ball_entries(
            input@,
        ).len() > 0 ==> (club_speed(input@) matches Some(q) ==> q.wf()),
    ensures
        match r {
            Some(out) => map_shot(input@) == Some(out@),
            None => map_shot(input@) is None,
        },
{
    let pass = match json_get(input, "ball_speed_meters_per_second") {
        Some(_) => json_get(input, "vertical_launch_angle_degrees").is_some(),
        None => false,
    };
    if pass {
        return Some(deep_copy(input));
    }
    assert(!canonical_shape(input@));

    let imp: bool = match json_get(input, "Units") {
        Some(u) => match u {
            JsonValue::Text(s) => is_imperial(s.as_str()),
            _ => is_imperial("Yards"),
        },
        None => is_imperial("Yards"),
    };
    assert(imp == imperial_units(units_of(input@)));

    let ball = json_get(input, "BallData");
    let (speed, vla, hla, total_spin, spin_axis, backspin, sidespin) = match ball {
        Some(b) => (
            num_field(b, "Speed"),
            num_field(b, "VLA"),
            num_field(b, "HLA"),
            num_field(b, "TotalSpin"),
            num_field(b, "SpinAxis"),
            num_field(b, "BackSpin"),
            num_field(b, "SideSpin"),
        ),
        None => (None, None, None, None, None, None, None),
    };
    assert(speed == ball_num(input@, "Speed"@));
    assert(vla == ball_num(input@, "VLA"@));
    assert(hla == ball_num(input@, "HLA"@));
    assert(total_spin == ball_num(input@, "TotalSpin"@));
    assert(spin_axis == ball_num(input@, "SpinAxis"@));
    assert(backspin == ball_num(input@, "BackSpin"@));
    assert(sidespin == ball_num(input@, "SideSpin"@));

    let club = match json_get(input, "ClubData") {
        Some(c) => num_field(c, "Speed"),
        None => None,
    };
    assert(club == club_speed(input@));

    let mut out: Vec<(String, JsonValue)> = Vec::new();
    proof {
        assert(jv_fields(out@) =~= Seq::<(Seq<char>, JsonV)>::empty());
    }
    push_num_entry(
        &mut out,
        "ball_speed_meters_per_second",
        match speed {
            Some(q) => Some(
                if imp {
                    mph_to_mps(q)
                } else {
                    q
                },
            ),
            None => None,
        },
    );
    push_num_entry(&mut out, "vertical_launch_angle_degrees", vla);
    push_num_entry(&mut out, "horizontal_launch_angle_degrees", hla);
    push_num_entry(&mut out, "total_spin_rpm", total_spin);
    push_num_entry(&mut out, "spin_axis_degrees", spin_axis);
    push_num_entry(&mut out, "backspin_rpm", backspin);
    push_num_entry(&mut out, "sidespin_rpm", sidespin);
    proof {
        assert(jv_fields(out@) =~= ball_entries(input@));
        crate::json::lemma_jv_fields_index(out@);
    }

    // No recognizable ball-data field: club data alone is no canonical
    // record.
    if out.len() == 0 {
        return None;
    }

    let mut customary: Vec<(String, JsonValue)> = Vec::new();
    proof {
        assert(jv_fields(customary@) =~= Seq::<(Seq<char>, JsonV)>::empty());
    }
    push_num_entry(
        &mut customary,
        "ball_speed_mph",
        if imp {
            speed
        } else {
            None
        },
    );
    push_num_entry(
        &mut customary,
        "club_speed_mph",
        match club {
            Some(q) => Some(
                if imp {
                    q
                } else {
                    mps_to_mph(q)
                },
            ),
            None => None,
        },
    );
    proof {
        assert(jv_fields(customary@) =~= customary_fields(input@));
    }

    if customary.len() > 0 {
        let ghost before = out@;
        out.push(("us_customary_units".to_owned(), JsonValue::Obj(customary)));
        proof {
            lemma_jv_fields_push(before, out@[before.len() as int]);
        }
    }
    proof {
        assert(jv_fields(out@) =~= mapped_fields(input@));
        crate::json::lemma_jv_fields_index(out@);
    }
    Some(JsonValue::Obj(out))
}

/// Idempotence: a record already in canonical shape maps to itself,
/// unchanged.
pub proof fn lemma_map_canonical_unchanged(v: JsonV)
    requires
        canonical_shape(v),
    ensures
        map_shot(v) == Some(v),
{
}

/// Unit conversion: for a record in imperial units with a numeric ball
/// speed, the canonical record carries the exact product of that speed by
/// 0.44704 as metres per second, and keeps the source value in miles per
/// hour under the customary units.
#[verifier::rlimit(100)]
pub proof fn lemma_imperial_speed_conversion(v: JsonV, q: Quantity)
    requires
        !canonical_shape(v),
        imperial_units(units_of(v)),
        ball_num(v, "Speed"@) == Some(q),
    ensures
        map_shot(v) matches Some(out) && get_key(out, "ball_speed_meters_per_second"@) == Some(
            JsonV::Num(mph_to_mps_spec(q)),
        ),
        map_shot(v) matches Some(out) && match get_key(out, "us_customary_units"@) {
            Some(c) => get_key(c, "ball_speed_mph"@) == Some(JsonV::Num(q)),
            None => false,
        },
{
    let speed_entry = opt_entry(
        "ball_speed_meters_per_second"@,
        Some(JsonV::Num(mph_to_mps_spec(q))),
    );
    let rest = opt_entry("vertical_launch_angle_degrees"@, opt_num(ball_num(v, "VLA"@)))
        + opt_entry("horizontal_launch_angle_degrees"@, opt_num(ball_num(v, "HLA"@)))
        + opt_entry("total_spin_rpm"@, opt_num(ball_num(v, "TotalSpin"@)))
        + opt_entry("spin_axis_degrees"@, opt_num(ball_num(v, "SpinAxis"@)))
        + opt_entry("backspin_rpm"@, opt_num(ball_num(v, "BackSpin"@)))
        + opt_entry("sidespin_rpm"@, opt_num(ball_num(v, "SideSpin"@)))
        + seq![("us_customary_units"@, JsonV::Obj(customary_fields(v)))];
    assert(customary_fields(v).len() > 0);
    assert(ball_entries(v).len() > 0);
    assert(mapped_fields(v) =~= speed_entry + rest);
    let out = JsonV::Obj(mapped_fields(v));
    assert(map_shot(v) == Some(out));

    // The canonical speed stands first.
    lemma_fields_get_append(speed_entry, rest, "ball_speed_meters_per_second"@);
    assert(get_key(out, "ball_speed_meters_per_second"@) == Some(JsonV::Num(mph_to_mps_spec(q))));

    // The customary sub-record stands last; no earlier key collides.
    proof_keys_distinct();
    let key = "us_customary_units"@;
    lemma_fields_get_append(speed_entry, rest, key);
    lemma_opt_entry_miss(
        "ball_speed_meters_per_second"@,
        Some(JsonV::Num(mph_to_mps_spec(q))),
        key,
    );
    assert(fields_get(speed_entry, key) is None);
    lemma_opt_entry_miss("vertical_launch_angle_degrees"@, opt_num(ball_num(v, "VLA"@)), key);
    lemma_opt_entry_miss("horizontal_launch_angle_degrees"@, opt_num(ball_num(v, "HLA"@)), key);
    lemma_opt_entry_miss("total_spin_rpm"@, opt_num(ball_num(v, "TotalSpin"@)), key);
    lemma_opt_entry_miss("spin_axis_degrees"@, opt_num(ball_num(v, "SpinAxis"@)), key);
    lemma_opt_entry_miss("backspin_rpm"@, opt_num(ball_num(v, "BackSpin"@)), key);
    lemma_opt_entry_miss("sidespin_rpm"@, opt_num(ball_num(v, "SideSpin"@)), key);
    lemma_fields_get_chain(
        seq![
            opt_entry("vertical_launch_angle_degrees"@, opt_num(ball_num(v, "VLA"@))),
            opt_entry("horizontal_launch_angle_degrees"@, opt_num(ball_num(v, "HLA"@))),
            opt_entry("total_spin_rpm"@, opt_num(ball_num(v, "TotalSpin"@))),
            opt_entry("spin_axis_degrees"@, opt_num(ball_num(v, "SpinAxis"@))),
            opt_entry("backspin_rpm"@, opt_num(ball_num(v, "BackSpin"@))),
            opt_entry("sidespin_rpm"@, opt_num(ball_num(v, "SideSpin"@))),
        ],
        key,
    );
    let middle = opt_entry("vertical_launch_angle_degrees"@, opt_num(ball_num(v, "VLA"@)))
        + opt_entry("horizontal_launch_angle_degrees"@, opt_num(ball_num(v, "HLA"@)))
        + opt_entry("total_spin_rpm"@, opt_num(ball_num(v, "TotalSpin"@)))
        + opt_entry("spin_axis_degrees"@, opt_num(ball_num(v, "SpinAxis"@)))
        + opt_entry("backspin_rpm"@, opt_num(ball_num(v, "BackSpin"@)))
        + opt_entry("sidespin_rpm"@, opt_num(ball_num(v, "SideSpin"@)));
    let last = seq![(key, JsonV::Obj(customary_fields(v)))];
    assert(rest =~= middle + last);
    lemma_fields_get_append(middle, last, key);
    assert(last[0].0 == key);
    assert(fields_get(last, key) == Some(JsonV::Obj(customary_fields(v))));
    assert(get_key(out, key) == Some(JsonV::Obj(customary_fields(v))));

    // Inside the customary record, the source speed stands first.
    let mph_entry = opt_entry("ball_speed_mph"@, Some(JsonV::Num(q)));
    let club_entry = opt_entry(
        "club_speed_mph"@,
        match club_speed(v) {
            Some(c) => Some(JsonV::Num(if imperial_units(units_of(v)) {
                c
            } else {
                mps_to_mph_spec(c)
            })),
            None => None,
        },
    );
    assert(customary_fields(v) =~= mph_entry + club_entry);
    lemma_fields_get_append(mph_entry, club_entry, "ball_speed_mph"@);
    assert(mph_entry[0].0 == "ball_speed_mph"@);
    assert(fields_get(mph_entry, "ball_speed_mph"@) == Some(JsonV::Num(q)));
    assert(fields_get(customary_fields(v), "ball_speed_mph"@) == Some(JsonV::Num(q)));
}

/// A sequence of optional entries, none of whose keys is `key`, yields no
/// binding for `key`.
proof fn lemma_fields_get_chain(segs: Seq<Seq<(Seq<char>, JsonV)>>, key: Seq<char>)
    requires
        forall|i: int| 0 <= i < segs.len() ==> fields_get(#[trigger] segs[i], key) is None,
    ensures
        segs.len() == 6 ==> fields_get(
            segs[0] + segs[1] + segs[2] + segs[3] + segs[4] + segs[5],
            key,
        ) is None,
{
    if segs.len() == 6 {
        lemma_fields_get_append(segs[0], segs[1], key);
        lemma_fields_get_append(segs[0] + segs[1], segs[2], key);
        lemma_fields_get_append(segs[0] + segs[1] + segs[2], segs[3], key);
        lemma_fields_get_append(segs[0] + segs[1] + segs[2] + segs[3], segs[4], key);
        lemma_fields_get_append(segs[0] + segs[1] + segs[2] + segs[3] + segs[4], segs[5], key);
    }
}

/// An optional entry under another key yields no binding for `key`.
proof fn lemma_opt_entry_miss(k: Seq<char>, v: Option<JsonV>, key: Seq<char>)
    requires
        k != key,
    ensures
        fields_get(opt_entry(k, v), key) is None,
{
    match v {
        Some(u) => {
            assert(opt_entry(k, v)[0].0 == k);
            assert(opt_entry(k, v).drop_first() =~= Seq::<(Seq<char>, JsonV)>::empty());
            assert(fields_get(Seq::<(Seq<char>, JsonV)>::empty(), key) is None);
            assert(fields_get(opt_entry(k, v), key) == fields_get(
                opt_entry(k, v).drop_first(),
                key,
            ));
        },
        None => {},
    }
}

/// The canonical field names and the customary sub-record name are
/// pairwise distinct where the mapper relies on it.
proof fn proof_keys_distinct()
    ensures
        "us_customary_units"@ != "ball_speed_meters_per_second"@,
        "us_customary_units"@ != "vertical_launch_angle_degrees"@,
        "us_customary_units"@ != "horizontal_launch_angle_degrees"@,
        "us_customary_units"@ != "total_spin_rpm"@,
        "us_customary_units"@ != "spin_axis_degrees"@,
        "us_customary_units"@ != "backspin_rpm"@,
        "us_customary_units"@ != "sidespin_rpm"@,
{
    reveal_strlit("us_customary_units");
    reveal_strlit("ball_speed_meters_per_second");
    reveal_strlit("vertical_launch_angle_degrees");
    reveal_strlit("horizontal_launch_angle_degrees");
    reveal_strlit("total_spin_rpm");
    reveal_strlit("spin_axis_degrees");
    reveal_strlit("backspin_rpm");
    reveal_strlit("sidespin_rpm");
    assert("us_customary_units"@.len() == 18);
    assert("ball_speed_meters_per_second"@.len() == 28);
    assert("vertical_launch_angle_degrees"@.len() == 29);
    assert("horizontal_launch_angle_degrees"@.len() == 31);
    assert("total_spin_rpm"@.len() == 14);
    assert("spin_axis_degrees"@.len() == 17);
    assert("backspin_rpm"@.len() == 12);
    assert("sidespin_rpm"@.len() == 12);
}

/// Mapping failure: a record that is not canonical and has no ball-data
/// group maps to nothing at all, whatever else it carries.
pub proof fn lemma_unrecognizable_maps_to_nothing(v: JsonV)
    requires
        !canonical_shape(v),
        get_key(v, "BallData"@) is None,
    ensures
        map_shot(v) is None,
{
    assert(ball_entries(v) =~= Seq::<(Seq<char>, JsonV)>::empty());
}

} // verus!
