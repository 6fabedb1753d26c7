//! Serialisation of a document to JSON text.
//!
//! The canonical record is handed to the computation step as one JSON
//! line; this module produces that text. Numbers keep their exact decimal
//! form, written as a mantissa and, when it is not zero, a decimal
//! exponent.

use crate::json::{JsonV, JsonValue, Quantity, jv, jv_fields, jv_seq, lemma_jv_fields_index,
    lemma_jv_seq_index};
use vstd::prelude::*;

verus! {

/// The decimal digit character for `d`.
pub open spec fn digit_char(d: int) -> char {
    if d == 0 {
        '0'
    } else if d == 1 {
        '1'
    } else if d == 2 {
        '2'
    } else if d == 3 {
        '3'
    } else if d == 4 {
        '4'
    } else if d == 5 {
        '5'
    } else if d == 6 {
        '6'
    } else if d == 7 {
        '7'
    } else if d == 8 {
        '8'
    } else {
        '9'
    }
}

/// The hexadecimal digit character for `d`, lower case.
pub open spec fn hex_char(d: int) -> char {
    if d < 10 {
        digit_char(d)
    } else if d == 10 {
        'a'
    } else if d == 11 {
        'b'
    } else if d == 12 {
        'c'
    } else if d == 13 {
        'd'
    } else if d == 14 {
        'e'
    } else {
        'f'
    }
}

/// The decimal numeral of `n`, most significant digit first.
pub open spec fn dec_digits(n: int) -> Seq<char>
    recommends
        n >= 0,
    decreases n,
{
    if n < 10 {
        seq![digit_char(n)]
    } else {
        dec_digits(n / 10).push(digit_char(n % 10))
    }
}

/// The text of an exponent: a sign when negative, then its numeral.
pub open spec fn ser_exp(e: int) -> Seq<char> {
    if e < 0 {
        seq!['-'] + dec_digits(-e)
    } else {
        dec_digits(e)
    }
}

/// The JSON text of a quantity: sign and mantissa, and an exponent part
/// when the decimal exponent is not zero.
pub open spec fn ser_quantity(q: Quantity) -> Seq<char> {
    let mag = dec_digits(q.mantissa as int);
    let signed = if q.neg {
        seq!['-'] + mag
    } else {
        mag
    };
    if q.exp10 == 0 {
        signed
    } else {
        signed + seq!['e'] + ser_exp(q.exp10 as int)
    }
}

/// The JSON escape of one string character.
pub open spec fn esc_char(c: char) -> Seq<char> {
    if c == '"' {
        seq!['\\', '"']
    } else if c == '\\' {
        seq!['\\', '\\']
    } else if (c as u32) < 32 {
        seq!['\\', 'u', '0', '0', hex_char((c as int) / 16), hex_char((c as int) % 16)]
    } else {
        seq![c]
    }
}

/// The JSON escape of a string body.
pub open spec fn esc_str(s: Seq<char>) -> Seq<char>
    decreases s.len(),
{
    if s.len() == 0 {
        Seq::empty()
    } else {
        esc_char(s[0]) + esc_str(s.drop_first())
    }
}

/// A quoted JSON string.
pub open spec fn quoted(s: Seq<char>) -> Seq<char> {
    seq!['"'] + esc_str(s) + seq!['"']
}

/// The JSON text of a document.
pub open spec fn ser_json(v: JsonV) -> Seq<char>
    decreases v,
{
    match v {
        JsonV::Null => "null"@,
        JsonV::Bool(b) => if b {
            "true"@
        } else {
            "false"@
        },
        JsonV::Num(q) => ser_quantity(q),
        JsonV::Text(s) => quoted(s),
        JsonV::Arr(items) => seq!['['] + ser_items(items) + seq![']'],
        JsonV::Obj(fields) => seq!['{'] + ser_fields(fields) + seq!['}'],
    }
}

/// The comma-separated JSON texts of array elements.
pub open spec fn ser_items(items: Seq<JsonV>) -> Seq<char>
    decreases items,
{
    if items.len() == 0 {
        Seq::empty()
    } else if items.len() == 1 {
        ser_json(items[0])
    } else {
        ser_json(items[0]) + seq![','] + ser_items(items.drop_first())
    }
}

/// The comma-separated JSON texts of object members.
pub open spec fn ser_fields(fields: Seq<(Seq<char>, JsonV)>) -> Seq<char>
    decreases fields,
{
    if fields.len() == 0 {
        Seq::empty()
    } else {
        let head = quoted(fields[0].0) + seq![':'] + ser_json(fields[0].1);
        if fields.len() == 1 {
            head
        } else {
            head + seq![','] + ser_fields(fields.drop_first())
        }
    }
}

/// Escaping distributes over appending one character.
proof fn lemma_esc_push(s: Seq<char>, c: char)
    ensures
        esc_str(s.push(c)) == esc_str(s) + esc_char(c),
    decreases s.len(),
{
    if s.len() == 0 {
        assert(s.push(c)[0] == c);
        assert(s.push(c).drop_first() =~= Seq::<char>::empty());
        assert(esc_str(s.push(c)) == esc_char(c) + esc_str(Seq::<char>::empty()));
        assert(esc_str(Seq::<char>::empty()) =~= Seq::<char>::empty());
        assert(esc_char(c) + Seq::<char>::empty() =~= esc_char(c));
        assert(esc_str(s) =~= Seq::<char>::empty());
        assert(esc_str(s) + esc_char(c) =~= esc_char(c));
    } else {
        assert(s.push(c)[0] == s[0]);
        assert(s.push(c).drop_first() =~= s.drop_first().push(c));
        lemma_esc_push(s.drop_first(), c);
        assert(esc_str(s.push(c)) =~= esc_str(s) + esc_char(c));
    }
}

/// Serialising one more array element appends a separator and its text.
proof fn lemma_ser_items_push(items: Seq<JsonV>, v: JsonV)
    ensures
        ser_items(items.push(v)) == if items.len() == 0 {
            ser_json(v)
        } else {
            ser_items(items) + seq![','] + ser_json(v)
        },
    decreases items.len(),
{
    if items.len() == 0 {
        assert(items.push(v)[0] == v);
    } else {
        assert(items.push(v)[0] == items[0]);
        assert(items.push(v).drop_first() =~= items.drop_first().push(v));
        lemma_ser_items_push(items.drop_first(), v);
        assert(ser_items(items.push(v)) =~= ser_items(items) + seq![','] + ser_json(v));
    }
}

/// Serialising one more object member appends a separator and its text.
proof fn lemma_ser_fields_push(fields: Seq<(Seq<char>, JsonV)>, f: (Seq<char>, JsonV))
    ensures
        ser_fields(fields.push(f)) == if fields.len() == 0 {
            quoted(f.0) + seq![':'] + ser_json(f.1)
        } else {
            ser_fields(fields) + seq![','] + (quoted(f.0) + seq![':'] + ser_json(f.1))
        },
    decreases fields.len(),
{
    if fields.len() == 0 {
        assert(fields.push(f)[0] == f);
    } else {
        assert(fields.push(f)[0] == fields[0]);
        assert(fields.push(f).drop_first() =~= fields.drop_first().push(f));
        lemma_ser_fields_push(fields.drop_first(), f);
        assert(ser_fields(fields.push(f)) =~= ser_fields(fields) + seq![','] + (quoted(f.0)
            + seq![':'] + ser_json(f.1)));
    }
}

/// The decimal digit character for `d`.
fn digit_exec(d: u128) -> (c: char)
    requires
        d < 10,
    ensures
        c == digit_char(d as int),
{
    if d == 0 {
        '0'
    } else if d == 1 {
        '1'
    } else if d == 2 {
        '2'
    } else if d == 3 {
        '3'
    } else if d == 4 {
        '4'
    } else if d == 5 {
        '5'
    } else if d == 6 {
        '6'
    } else if d == 7 {
        '7'
    } else if d == 8 {
        '8'
    } else {
        '9'
    }
}

/// The hexadecimal digit character for `d`, lower case.
fn hex_exec(d: u32) -> (c: char)
    requires
        d < 16,
    ensures
        c == hex_char(d as int),
{
    if d < 10 {
        digit_exec(d as u128)
    } else if d == 10 {
        'a'
    } else if d == 11 {
        'b'
    } else if d == 12 {
        'c'
    } else if d == 13 {
        'd'
    } else if d == 14 {
        'e'
    } else {
        'f'
    }
}

/// Append the decimal numeral of `n`.
fn push_digits(out: &mut Vec<char>, n: u128)
    ensures
        final(out)@ == old(out)@ + dec_digits(n as int),
{
    let ghost base = old(out)@;
    let mut temp: Vec<char> = Vec::new();
    let mut k = n;
    while k >= 10
        invariant
            dec_digits(n as int) =~= dec_digits(k as int) + temp@.reverse(),
        decreases k,
    {
        let ghost t0 = temp@;
        let d = digit_exec(k % 10);
        temp.push(d);
        proof {
            assert(temp@.reverse() =~= seq![d] + t0.reverse());
            assert(dec_digits(k as int) =~= dec_digits(k as int / 10) + seq![
                digit_char(k as int % 10),
            ]);
        }
        k = k / 10;
    }
    let d = digit_exec(k);
    temp.push(d);
    proof {
        assert(dec_digits(k as int) =~= seq![digit_char(k as int)]);
        assert(temp@.reverse() =~= dec_digits(n as int));
    }
    let mut j = temp.len();
    while j > 0
        invariant
            0 <= j <= temp@.len(),
            out@ =~= base + temp@.skip(j as int).reverse(),
        decreases j,
    {
        j -= 1;
        out.push(temp[j]);
        proof {
            assert(out@ =~= base + temp@.skip(j as int).reverse());
        }
    }
    proof {
        assert(temp@.skip(0) =~= temp@);
        assert(out@ =~= base + dec_digits(n as int));
    }
}

/// Append the JSON escape of one character.
fn push_escaped(out: &mut Vec<char>, c: char)
    ensures
        final(out)@ == old(out)@ + esc_char(c),
{
    let ghost base = old(out)@;
    if c == '"' {
        out.push('\\');
        out.push('"');
        proof {
            assert(out@ =~= base + esc_char(c));
        }
    } else if c == '\\' {
        out.push('\\');
        out.push('\\');
        proof {
            assert(out@ =~= base + esc_char(c));
        }
    } else {
        let cu = c as u32;
        if cu < 32u32 {
            out.push('\\');
            out.push('u');
            out.push('0');
            out.push('0');
            let h1 = hex_exec(cu / 16);
            out.push(h1);
            let h2 = hex_exec(cu % 16);
            out.push(h2);
            proof {
                assert(out@ =~= base + esc_char(c));
            }
        } else {
            out.push(c);
            proof {
                assert(out@ =~= base + esc_char(c));
            }
        }
    }
}

/// Append a quoted, escaped JSON string.
fn push_quoted(out: &mut Vec<char>, s: &str)
    ensures
        final(out)@ == old(out)@ + quoted(s@),
{
    let ghost base = old(out)@;
    out.push('"');
    let n = s.unicode_len();
    let mut i: usize = 0;
    while i < n
        invariant
            0 <= i <= n,
            n == s@.len(),
            out@ =~= base + seq!['"'] + esc_str(s@.take(i as int)),
        decreases n - i,
    {
        let c = s.get_char(i);
        push_escaped(out, c);
        proof {
            assert(s@.take(i + 1) =~= s@.take(i as int).push(s@[i as int]));
            lemma_esc_push(s@.take(i as int), s@[i as int]);
        }
        i += 1;
    }
    out.push('"');
    proof {
        assert(s@.take(n as int) =~= s@);
        assert(out@ =~= base + quoted(s@));
    }
}

/// Append the JSON text of a quantity.
fn push_quantity(out: &mut Vec<char>, q: Quantity)
    ensures
        final(out)@ == old(out)@ + ser_quantity(q),
{
    let ghost base = old(out)@;
    if q.neg {
        out.push('-');
    }
    push_digits(out, q.mantissa);
    if q.exp10 != 0 {
        out.push('e');
        if q.exp10 < 0 {
            out.push('-');
            let mag = (-(q.exp10 as i64)) as u128;
            push_digits(out, mag);
            proof {
                assert(out@ =~= base + ser_quantity(q));
            }
        } else {
            push_digits(out, q.exp10 as u128);
            proof {
                assert(out@ =~= base + ser_quantity(q));
            }
        }
    } else {
        proof {
            assert(out@ =~= base + ser_quantity(q));
        }
    }
}

/// Append the JSON text of a document.
fn ser_into(v: &JsonValue, out: &mut Vec<char>)
    ensures
        final(out)@ == old(out)@ + ser_json(v@),
    decreases v,
{
    let ghost base = old(out)@;
    match v {
        JsonValue::Null => {
            out.push('n');
            out.push('u');
            out.push('l');
            out.push('l');
            proof {
                reveal_strlit("null");
                assert(out@ =~= base + "null"@);
            }
        },
        JsonValue::Bool(b) => {
            if *b {
                out.push('t');
                out.push('r');
                out.push('u');
                out.push('e');
                proof {
                    reveal_strlit("true");
                    assert(out@ =~= base + "true"@);
                }
            } else {
                out.push('f');
                out.push('a');
                out.push('l');
                out.push('s');
                out.push('e');
                proof {
                    reveal_strlit("false");
                    assert(out@ =~= base + "false"@);
                }
            }
        },
        JsonValue::Num(q) => {
            push_quantity(out, *q);
        },
        JsonValue::Text(s) => {
            push_quoted(out, s.as_str());
        },
        JsonValue::Arr(items) => {
            let ghost sv = jv_seq(items@);
            proof {
                lemma_jv_seq_index(items@);
            }
            out.push('[');
            let n = items.len();
            let mut i: usize = 0;
            while i < n
                invariant
                    0 <= i <= n,
                    n == items@.len(),
                    *v == JsonValue::Arr(*items),
                    sv == jv_seq(items@),
                    sv.len() == n,
                    forall|k: int| 0 <= k < n ==> sv[k] == jv(items@[k]),
                    out@ =~= base + seq!['['] + ser_items(sv.take(i as int)),
                decreases n - i,
            {
                if i > 0 {
                    out.push(',');
                }
                proof {
                    assert(decreases_to!(*v => v->Arr_0));
                    assert(v->Arr_0 == *items);
                    assert(decreases_to!(*items => items@[i as int]));
                }
                ser_into(&items[i], out);
                proof {
                    assert(sv.take(i + 1) =~= sv.take(i as int).push(sv[i as int]));
                    lemma_ser_items_push(sv.take(i as int), sv[i as int]);
                    assert(out@ =~= base + seq!['['] + ser_items(sv.take(i + 1)));
                }
                i += 1;
            }
            out.push(']');
            proof {
                assert(sv.take(n as int) =~= sv);
                assert(out@ =~= base + ser_json(v@));
            }
        },
        JsonValue::Obj(fields) => {
            let ghost fv = jv_fields(fields@);
            proof {
                lemma_jv_fields_index(fields@);
            }
            out.push('{');
            let n = fields.len();
            let mut i: usize = 0;
            while i < n
                invariant
                    0 <= i <= n,
                    n == fields@.len(),
                    *v == JsonValue::Obj(*fields),
                    fv == jv_fields(fields@),
                    fv.len() == n,
                    forall|k: int| 0 <= k < n ==> fv[k] == (fields@[k].0@, jv(fields@[k].1)),
                    out@ =~= base + seq!['{'] + ser_fields(fv.take(i as int)),
                decreases n - i,
            {
                if i > 0 {
                    out.push(',');
                }
                push_quoted(out, fields[i].0.as_str());
                out.push(':');
                proof {
                    assert(decreases_to!(*v => v->Obj_0));
                    assert(v->Obj_0 == *fields);
                    assert(decreases_to!(*fields => fields@[i as int]));
                }
                ser_into(&fields[i].1, out);
                proof {
                    assert(fv.take(i + 1) =~= fv.take(i as int).push(fv[i as int]));
                    lemma_ser_fields_push(fv.take(i as int), fv[i as int]);
                    assert(out@ =~= base + seq!['{'] + ser_fields(fv.take(i + 1)));
                }
                i += 1;
            }
            out.push('}');
            proof {
                assert(fv.take(n as int) =~= fv);
                assert(out@ =~= base + ser_json(v@));
            }
        },
    }
}

/// Relies on `String: FromIterator<char>`: collecting characters yields
/// the string of exactly those characters in order.
#[verifier::external_body]
fn string_from_chars(chars: &Vec<char>) -> (s: String)
    ensures
        s@ == chars@,
{
    chars.iter().collect()
}

/// The JSON text of a document, as one line.
pub fn to_json_text(v: &JsonValue) -> (s: String)
    ensures
        s@ == ser_json(v@),
{
    let mut buf: Vec<char> = Vec::new();
    ser_into(v, &mut buf);
    string_from_chars(&buf)
}

} // verus!
