//! Preparation and completion of one device shot line.
//!
//! A decoded line is mapped to the canonical schema and serialised to the
//! one JSON line the external computation step takes. The step itself is
//! a floating-point simulation the verified library cannot hold, and it
//! can panic on some records, so the process boundary makes that call —
//! catching any unwind — and hands every outcome back to be turned into
//! this library's result.

use crate::json::JsonValue;
use crate::mapper::{ball_entries, ball_num, canonical_shape, club_speed, imperial_units,
    map_nova_shot_to_ogc, map_shot, units_of};
use crate::serial::{ser_json, to_json_text};
use vstd::prelude::*;

verus! {

/// Why one shot line produced no published result.
#[derive(Debug)]
pub enum ShotError {
    /// The line was not valid JSON.
    Malformed,
    /// The record resembles no known device schema.
    Unmappable,
    /// The computation step rejected the canonical record; its message.
    Computation(String),
}

/// Prepare one shot line for the computation step: map the record to the
/// canonical schema and serialise it to one JSON line. `None` stands for
/// a line that was not valid JSON.
pub fn prepare_shot(parsed: Option<&JsonValue>) -> (r: Result<String, ShotError>)
    requires
        parsed matches Some(v) ==> (!canonical_shape(v@) && imperial_units(units_of(v@)) ==> (
        ball_num(v@, "Speed"@) matches Some(q) ==> q.wf())),
        parsed matches Some(v) ==> (!canonical_shape(v@) && !imperial_units(units_of(v@))
            && ball_entries(v@).len() > 0 ==> (club_speed(v@) matches Some(q) ==> q.wf())),
    ensures
        parsed is None <==> r == Err::<String, ShotError>(ShotError::Malformed),
        parsed matches Some(v) ==> ((map_shot(v@) is None) <==> r == Err::<String, ShotError>(
            ShotError::Unmappable,
        )),
        parsed matches Some(v) ==> (map_shot(v@) matches Some(c) ==> (r matches Ok(text)
            && text@ == ser_json(c))),
{
    match parsed {
        None => Err(ShotError::Malformed),
        Some(v) => {
            match map_nova_shot_to_ogc(v) {
                None => Err(ShotError::Unmappable),
                Some(canonical) => Ok(to_json_text(&canonical)),
            }
        },
    }
}

/// The outcome of the computation step, as this library's error type:
/// success passes through, failure — a rejection or a caught crash —
/// becomes a computation error carrying the step's message.
pub fn computation_outcome(outcome: Result<String, String>) -> (r: Result<String, ShotError>)
    ensures
        match outcome {
            Ok(s) => r == Ok::<String, ShotError>(s),
            Err(m) => r == Err::<String, ShotError>(ShotError::Computation(m)),
        },
{
    match outcome {
        Ok(s) => Ok(s),
        Err(m) => Err(ShotError::Computation(m)),
    }
}

} // verus!
