//! The library's own representation of a JSON document.
//!
//! Numbers are held exactly in decimal form, so that unit conversion and
//! serialisation are integer arithmetic; objects are insertion-ordered lists
//! of key/value pairs. The process boundary converts between this
//! representation and JSON text.

use crate::text::str_eq;
use vstd::prelude::*;

verus! {

/// A JSON numeric value held exactly: the value is
/// `mantissa * 10^exp10`, negated when `neg` is set.
#[derive(Debug, Clone, Copy, PartialEq, Eq, Structural)]
pub struct Quantity {
    pub neg: bool,
    pub mantissa: u128,
    pub exp10: i32,
}

/// Largest mantissa a well-formed source quantity may carry. Any number
/// parsed from the decimal text of a 64-bit float fits well below this.
pub const MANTISSA_BOUND: u128 = 10_000_000_000_000_000_000;

/// Largest magnitude a well-formed source exponent may carry.
pub const EXP10_BOUND: i32 = 100_000;

impl Quantity {
    /// A quantity small enough that one unit conversion cannot overflow.
    pub open spec fn wf(self) -> bool {
        self.mantissa <= MANTISSA_BOUND && -EXP10_BOUND <= self.exp10 <= EXP10_BOUND
    }
}

/// Spec-level mirror of a JSON document, with strings as character sequences.
pub enum JsonV {
    Null,
    Bool(bool),
    Num(Quantity),
    Text(Seq<char>),
    Arr(Seq<JsonV>),
    Obj(Seq<(Seq<char>, JsonV)>),
}

/// A JSON document.
#[derive(Debug)]
pub enum JsonValue {
    Null,
    Bool(bool),
    Num(Quantity),
    Text(String),
    Arr(Vec<JsonValue>),
    Obj(Vec<(String, JsonValue)>),
}

/// The abstract document that a concrete one represents.
pub open spec fn jv(v: JsonValue) -> JsonV
    decreases v,
{
    match v {
        JsonValue::Null => JsonV::Null,
        JsonValue::Bool(b) => JsonV::Bool(b),
        JsonValue::Num(q) => JsonV::Num(q),
        JsonValue::Text(s) => JsonV::Text(s@),
        JsonValue::Arr(items) => JsonV::Arr(jv_seq(items@)),
        JsonValue::Obj(fields) => JsonV::Obj(jv_fields(fields@)),
    }
}

/// The abstract documents that a sequence of concrete ones represents.
pub open spec fn jv_seq(s: Seq<JsonValue>) -> Seq<JsonV>
    decreases s,
{
    if s.len() == 0 {
        Seq::empty()
    } else {
        seq![jv(s[0])] + jv_seq(s.drop_first())
    }
}

/// The abstract key/value pairs that concrete object fields represent.
pub open spec fn jv_fields(s: Seq<(String, JsonValue)>) -> Seq<(Seq<char>, JsonV)>
    decreases s,
{
    if s.len() == 0 {
        Seq::empty()
    } else {
        seq![(s[0].0@, jv(s[0].1))] + jv_fields(s.drop_first())
    }
}

impl View for JsonValue {
    type V = JsonV;

    open spec fn view(&self) -> JsonV {
        jv(*self)
    }
}

/// `jv_seq` maps the sequence element by element.
pub proof fn lemma_jv_seq_index(s: Seq<JsonValue>)
    ensures
        jv_seq(s).len() == s.len(),
        forall|i: int| 0 <= i < s.len() ==> jv_seq(s)[i] == jv(s[i]),
    decreases s,
{
    if s.len() > 0 {
        lemma_jv_seq_index(s.drop_first());
    }
}

/// `jv_fields` maps the field list pair by pair.
pub proof fn lemma_jv_fields_index(s: Seq<(String, JsonValue)>)
    ensures
        jv_fields(s).len() == s.len(),
        forall|i: int| 0 <= i < s.len() ==> jv_fields(s)[i] == (s[i].0@, jv(s[i].1)),
    decreases s,
{
    if s.len() > 0 {
        lemma_jv_fields_index(s.drop_first());
    }
}

/// Appending one field extends the abstract field list by its image.
pub proof fn lemma_jv_fields_push(s: Seq<(String, JsonValue)>, p: (String, JsonValue))
    ensures
        jv_fields(s.push(p)) =~= jv_fields(s).push((p.0@, jv(p.1))),
{
    lemma_jv_fields_index(s.push(p));
    lemma_jv_fields_index(s);
    assert forall|i: int| 0 <= i < s.len() implies jv_fields(s.push(p))[i] == jv_fields(s)[i] by {
        assert(s.push(p)[i] == s[i]);
    }
    assert(s.push(p)[s.len() as int] == p);
}

/// The first value bound to `key` in an abstract field list, if any.
pub open spec fn fields_get(fields: Seq<(Seq<char>, JsonV)>, key: Seq<char>) -> Option<JsonV>
    decreases fields,
{
    if fields.len() == 0 {
        None
    } else if fields[0].0 == key {
        Some(fields[0].1)
    } else {
        fields_get(fields.drop_first(), key)
    }
}

/// JSON object member lookup: `None` when `v` is not an object or lacks `key`.
pub open spec fn get_key(v: JsonV, key: Seq<char>) -> Option<JsonV> {
    match v {
        JsonV::Obj(fields) => fields_get(fields, key),
        _ => None,
    }
}

/// Lookup in a concatenation: the left part is searched first.
pub proof fn lemma_fields_get_append(
    a: Seq<(Seq<char>, JsonV)>,
    b: Seq<(Seq<char>, JsonV)>,
    key: Seq<char>,
)
    ensures
        fields_get(a + b, key) == match fields_get(a, key) {
            Some(x) => Some(x),
            None => fields_get(b, key),
        },
    decreases a.len(),
{
    if a.len() == 0 {
        assert(a + b =~= b);
    } else {
        assert((a + b)[0] == a[0]);
        assert((a + b).drop_first() =~= a.drop_first() + b);
        lemma_fields_get_append(a.drop_first(), b, key);
    }
}

/// Lookup in a prefix of the fields stays decisive: if the first `n` pairs
/// do not bind `key`, the lookup continues in the rest.
proof fn lemma_fields_get_skip(fields: Seq<(Seq<char>, JsonV)>, key: Seq<char>, n: int)
    requires
        0 <= n <= fields.len(),
        forall|j: int| 0 <= j < n ==> fields[j].0 != key,
    ensures
        fields_get(fields, key) == fields_get(fields.skip(n), key),
    decreases n,
{
    if n == 0 {
        assert(fields.skip(0) =~= fields);
    } else {
        lemma_fields_get_skip(fields.drop_first(), key, n - 1);
        assert(fields.drop_first().skip(n - 1) =~= fields.skip(n));
    }
}

/// Object member lookup: the first field named `key` of an object value.
pub fn json_get<'a>(v: &'a JsonValue, key: &str) -> (r: Option<&'a JsonValue>)
    ensures
        match r {
            Some(u) => get_key(v@, key@) == Some(u@),
            None => get_key(v@, key@) is None,
        },
{
    match v {
        JsonValue::Obj(fields) => {
            let ghost af = jv_fields(fields@);
            proof {
                lemma_jv_fields_index(fields@);
            }
            let n = fields.len();
            let mut i: usize = 0;
            while i < n
                invariant
                    0 <= i <= n,
                    n == fields@.len(),
                    af == jv_fields(fields@),
                    af.len() == n,
                    forall|j: int| 0 <= j < n ==> af[j] == (fields@[j].0@, jv(fields@[j].1)),
                    forall|j: int| 0 <= j < i ==> af[j].0 != key@,
                    v@ == JsonV::Obj(af),
                decreases n - i,
            {
                if str_eq(fields[i].0.as_str(), key) {
                    proof {
                        lemma_fields_get_skip(af, key@, i as int);
                        assert(af.skip(i as int)[0] == af[i as int]);
                    }
                    return Some(&fields[i].1);
                }
                i += 1;
            }
            proof {
                lemma_fields_get_skip(af, key@, n as int);
                assert(af.skip(n as int) =~= Seq::empty());
            }
            None
        },
        _ => None,
    }
}

/// A structural copy of a document: the result represents the same
/// abstract document as the source.
pub fn deep_copy(v: &JsonValue) -> (r: JsonValue)
    ensures
        r@ == v@,
    decreases v,
{
    match v {
        JsonValue::Null => JsonValue::Null,
        JsonValue::Bool(b) => JsonValue::Bool(*b),
        JsonValue::Num(q) => JsonValue::Num(*q),
        JsonValue::Text(s) => JsonValue::Text(s.clone()),
        JsonValue::Arr(items) => {
            let n = items.len();
            let mut out: Vec<JsonValue> = Vec::new();
            let mut i: usize = 0;
            while i < n
                invariant
                    0 <= i <= n,
                    n == items@.len(),
                    *v == JsonValue::Arr(*items),
                    out@.len() == i,
                    forall|j: int| 0 <= j < i ==> jv(#[trigger] out@[j]) == jv(items@[j]),
                decreases n - i,
            {
                proof {
                    assert(decreases_to!(*v => v->Arr_0));
                    assert(v->Arr_0 == *items);
                    assert(decreases_to!(*items => items@[i as int]));
                }
                let c = deep_copy(&items[i]);
                out.push(c);
                i += 1;
            }
            proof {
                lemma_jv_seq_index(out@);
                lemma_jv_seq_index(items@);
                assert(jv_seq(out@) =~= jv_seq(items@));
            }
            JsonValue::Arr(out)
        },
        JsonValue::Obj(fields) => {
            let n = fields.len();
            let mut out: Vec<(String, JsonValue)> = Vec::new();
            let mut i: usize = 0;
            while i < n
                invariant
                    0 <= i <= n,
                    n == fields@.len(),
                    *v == JsonValue::Obj(*fields),
                    out@.len() == i,
                    forall|j: int| 0 <= j < i ==> (#[trigger] out@[j]).0@ == fields@[j].0@
                        && jv(out@[j].1) == jv(fields@[j].1),
                decreases n - i,
            {
                proof {
                    assert(decreases_to!(*v => v->Obj_0));
                    assert(v->Obj_0 == *fields);
                    assert(decreases_to!(*fields => fields@[i as int]));
                }
                let k = fields[i].0.clone();
                let c = deep_copy(&fields[i].1);
                out.push((k, c));
                i += 1;
            }
            proof {
                lemma_jv_fields_index(out@);
                lemma_jv_fields_index(fields@);
                assert(jv_fields(out@) =~= jv_fields(fields@));
            }
            JsonValue::Obj(out)
        },
    }
}

} // verus!
