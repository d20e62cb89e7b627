//! Verified rendering: JSON trees to their serialized text, and values to
//! their canonical display form. The serializer emits exactly what the
//! specification functions here say, compactly (no added whitespace), with
//! object entries in tree order.

use vstd::prelude::*;
use crate::num::{int_text, dec_text};
use crate::text::push_char;
use crate::value::{JsonS, JsonValue, JsonEntry, Value, ValueS, json_view, json_view_seq,
    json_entries_view, lemma_json_view_seq, lemma_json_entries_view, value_view, value_view_seq,
    lemma_value_view_seq};

verus! {

/// The lower-case hexadecimal digit for `d` (0 to 15).
pub open spec fn hex_digit_char(d: int) -> char
    recommends
        0 <= d <= 15,
{
    if d < 10 {
        ((48 + d) as u8) as char
    } else {
        ((87 + d) as u8) as char
    }
}

/// How one character appears inside a JSON string literal: quote and
/// backslash escaped, the named control escapes, and `\u00..` for the
/// remaining control characters.
pub open spec fn escape_char(c: char) -> Seq<char> {
    if c == '"' {
        seq!['\\', '"']
    } else if c == '\\' {
        seq!['\\', '\\']
    } else if c == '\u{8}' {
        seq!['\\', 'b']
    } else if c == '\t' {
        seq!['\\', 't']
    } else if c == '\n' {
        seq!['\\', 'n']
    } else if c == '\u{C}' {
        seq!['\\', 'f']
    } else if c == '\r' {
        seq!['\\', 'r']
    } else if (c as u32) < 32 {
        seq!['\\', 'u', '0', '0', hex_digit_char(c as int / 16), hex_digit_char(c as int % 16)]
    } else {
        seq![c]
    }
}

/// The body of a JSON string literal for `s`.
pub open spec fn escape_text(s: Seq<char>) -> Seq<char>
    decreases s.len(),
{
    if s.len() == 0 {
        Seq::empty()
    } else {
        escape_text(s.drop_last()) + escape_char(s.last())
    }
}

/// A JSON string literal: quotes around the escaped body.
pub open spec fn quoted_text(s: Seq<char>) -> Seq<char> {
    seq!['"'] + escape_text(s) + seq!['"']
}

/// The serialized text of a JSON tree.
pub open spec fn json_text(j: JsonS) -> Seq<char>
    decreases j,
{
    match j {
        JsonS::Null => "null"@,
        JsonS::Bool(b) => if b {
            "true"@
        } else {
            "false"@
        },
        JsonS::Number(n) => n.repr,
        JsonS::Str(s) => quoted_text(s),
        JsonS::Array(items) => seq!['['] + json_texts(items) + seq![']'],
        JsonS::Object(entries) => seq!['{'] + json_entries_text(entries) + seq!['}'],
    }
}

/// The comma-joined texts of a sequence of JSON trees.
pub open spec fn json_texts(items: Seq<JsonS>) -> Seq<char>
    decreases items,
{
    if items.len() == 0 {
        Seq::empty()
    } else if items.len() == 1 {
        json_text(items[0])
    } else {
        json_texts(items.drop_last()) + seq![','] + json_text(items.last())
    }
}

/// The comma-joined `"name":value` texts of object entries.
pub open spec fn json_entries_text(entries: Seq<(Seq<char>, JsonS)>) -> Seq<char>
    decreases entries,
{
    if entries.len() == 0 {
        Seq::empty()
    } else if entries.len() == 1 {
        quoted_text(entries[0].0) + seq![':'] + json_text(entries[0].1)
    } else {
        json_entries_text(entries.drop_last()) + seq![','] + quoted_text(entries.last().0)
            + seq![':'] + json_text(entries.last().1)
    }
}

/// The lower-case hexadecimal digit character for `d`.
fn hex_digit(d: u8) -> (r: char)
    requires
        d <= 15,
    ensures
        r == hex_digit_char(d as int),
{
    if d < 10 {
        (48 + d) as char
    } else {
        (87 + d) as char
    }
}

/// Appends the escaped form of `c` to `out`.
fn push_escaped(out: &mut String, c: char)
    ensures
        final(out)@ == old(out)@ + escape_char(c),
{
    if c == '"' {
        push_char(out, '\\');
        push_char(out, '"');
    } else if c == '\\' {
        push_char(out, '\\');
        push_char(out, '\\');
    } else if c == '\u{8}' {
        push_char(out, '\\');
        push_char(out, 'b');
    } else if c == '\t' {
        push_char(out, '\\');
        push_char(out, 't');
    } else if c == '\n' {
        push_char(out, '\\');
        push_char(out, 'n');
    } else if c == '\u{C}' {
        push_char(out, '\\');
        push_char(out, 'f');
    } else if c == '\r' {
        push_char(out, '\\');
        push_char(out, 'r');
    } else if (c as u32) < 32 {
        push_char(out, '\\');
        push_char(out, 'u');
        push_char(out, '0');
        push_char(out, '0');
        let code = c as u8;
        push_char(out, hex_digit(code / 16));
        push_char(out, hex_digit(code % 16));
        assert(final(out)@ =~= old(out)@ + escape_char(c));
    } else {
        push_char(out, c);
    }
    assert(final(out)@ =~= old(out)@ + escape_char(c));
}

/// Appends the JSON string literal for `s` to `out`.
pub fn push_quoted(out: &mut String, s: &str)
    ensures
        final(out)@ == old(out)@ + quoted_text(s@),
{
    push_char(out, '"');
    let chars = crate::text::str_chars(s);
    let mut i: usize = 0;
    while i < chars.len()
        invariant
            i <= chars@.len(),
            chars@ == s@,
            out@ == old(out)@ + seq!['"'] + escape_text(s@.subrange(0, i as int)),
        decreases chars@.len() - i,
    {
        proof {
            let pre = s@.subrange(0, i + 1);
            assert(pre.drop_last() =~= s@.subrange(0, i as int));
            assert(pre.last() == s@[i as int]);
        }
        push_escaped(out, chars[i]);
        i += 1;
    }
    assert(s@.subrange(0, s@.len() as int) =~= s@);
    push_char(out, '"');
    assert(final(out)@ =~= old(out)@ + quoted_text(s@));
}

/// The serialized text of `j`, per `json_text`.
pub fn json_to_string(j: &JsonValue) -> (r: String)
    ensures
        r@ == json_text(j@),
    decreases *j,
{
    match j {
        JsonValue::Null => {
            let r = String::from_str("null");
            proof {
                reveal_strlit("null");
            }
            r
        },
        JsonValue::Bool(b) => {
            if *b {
                String::from_str("true")
            } else {
                String::from_str("false")
            }
        },
        JsonValue::Number(n) => n.repr.clone(),
        JsonValue::Str(s) => {
            let mut out = String::new();
            push_quoted(&mut out, s.as_str());
            assert(out@ =~= json_text(j@));
            out
        },
        JsonValue::Array(items) => {
            let ghost itemsv = json_view_seq(items@);
            proof {
                lemma_json_view_seq(items@);
            }
            let mut out = String::new();
            push_char(&mut out, '[');
            let mut i: usize = 0;
            while i < items.len()
                invariant
                    i <= items@.len(),
                    *j == JsonValue::Array(*items),
                    itemsv == json_view_seq(items@),
                    itemsv.len() == items@.len(),
                    forall|k: int| 0 <= k < items@.len() ==> itemsv[k] == json_view(items@[k]),
                    out@ == seq!['['] + json_texts(itemsv.subrange(0, i as int)),
                decreases items@.len() - i,
            {
                proof {
                    assert(decreases_to!(*j => j->Array_0));
                    assert(decreases_to!(j->Array_0 => items@[i as int]));
                    let pre = itemsv.subrange(0, i + 1);
                    assert(pre.drop_last() =~= itemsv.subrange(0, i as int));
                    assert(pre.last() == itemsv[i as int]);
                }
                if i > 0 {
                    push_char(&mut out, ',');
                }
                let piece = json_to_string(&items[i]);
                out.append(piece.as_str());
                i += 1;
            }
            push_char(&mut out, ']');
            proof {
                assert(itemsv.subrange(0, itemsv.len() as int) =~= itemsv);
                assert(out@ =~= json_text(j@));
            }
            out
        },
        JsonValue::Object(entries) => {
            let ghost entsv = json_entries_view(entries@);
            proof {
                lemma_json_entries_view(entries@);
            }
            let mut out = String::new();
            push_char(&mut out, '{');
            let mut i: usize = 0;
            while i < entries.len()
                invariant
                    i <= entries@.len(),
                    *j == JsonValue::Object(*entries),
                    entsv == json_entries_view(entries@),
                    entsv.len() == entries@.len(),
                    forall|k: int| 0 <= k < entries@.len() ==> entsv[k] == (
                        entries@[k].name@,
                        json_view(entries@[k].value),
                    ),
                    out@ == seq!['{'] + json_entries_text(entsv.subrange(0, i as int)),
                decreases entries@.len() - i,
            {
                proof {
                    assert(decreases_to!(*j => j->Object_0));
                    assert(decreases_to!(j->Object_0 => entries@[i as int]));
                    assert(decreases_to!(entries@[i as int] => entries@[i as int].value));
                    let pre = entsv.subrange(0, i + 1);
                    assert(pre.drop_last() =~= entsv.subrange(0, i as int));
                    assert(pre.last() == entsv[i as int]);
                }
                if i > 0 {
                    push_char(&mut out, ',');
                }
                push_quoted(&mut out, entries[i].name.as_str());
                push_char(&mut out, ':');
                let piece = json_to_string(&entries[i].value);
                out.append(piece.as_str());
                i += 1;
            }
            push_char(&mut out, '}');
            proof {
                assert(entsv.subrange(0, entsv.len() as int) =~= entsv);
                assert(out@ =~= json_text(j@));
            }
            out
        },
    }
}

/// The canonical display form of a value, used by the delimited formatter:
/// strings appear verbatim, integers and booleans in their usual text,
/// floats as their canonical rendering, temporal values as their integer
/// nanoseconds, byte and number arrays and tuples in bracketed comma-space
/// form, pointers as `^` before the key, and JSON values serialized.
pub open spec fn display_text(v: ValueS) -> Seq<char>
    decreases v,
{
    match v {
        ValueS::Null => "None"@,
        ValueS::Int(i) => int_text(i as int),
        ValueS::Float(t) => t,
        ValueS::Bool(b) => if b {
            "true"@
        } else {
            "false"@
        },
        ValueS::Str(s) => s,
        ValueS::Bytes(b) => seq!['['] + int_seq_texts(b.map_values(|x: u8| x as int)) + seq![']'],
        ValueS::Pointer(k) => seq!['^'] + dec_text(k as nat),
        ValueS::Tuple(items) => seq!['('] + display_texts(items) + seq![')'],
        ValueS::List(items) => seq!['['] + display_texts(items) + seq![']'],
        ValueS::IntArray(a) => seq!['['] + int_seq_texts(a.map_values(|x: i64| x as int))
            + seq![']'],
        ValueS::FloatArray(a) => seq!['['] + text_seq_joined(a) + seq![']'],
        ValueS::DateTimeNaive(t) => int_text(t as int),
        ValueS::DateTimeUtc(t) => int_text(t as int),
        ValueS::Duration(d) => int_text(d as int),
        ValueS::Json(j) => json_text(j),
        ValueS::Error => "Error"@,
        ValueS::PyObjectWrapper => "PyObjectWrapper"@,
    }
}

/// Comma-space-joined display texts.
pub open spec fn display_texts(items: Seq<ValueS>) -> Seq<char>
    decreases items,
{
    if items.len() == 0 {
        Seq::empty()
    } else if items.len() == 1 {
        display_text(items[0])
    } else {
        display_texts(items.drop_last()) + seq![',', ' '] + display_text(items.last())
    }
}

/// Comma-space-joined decimal texts of integers.
pub open spec fn int_seq_texts(items: Seq<int>) -> Seq<char>
    decreases items.len(),
{
    if items.len() == 0 {
        Seq::empty()
    } else if items.len() == 1 {
        int_text(items[0])
    } else {
        int_seq_texts(items.drop_last()) + seq![',', ' '] + int_text(items.last())
    }
}

/// Comma-space-joined texts.
pub open spec fn text_seq_joined(items: Seq<Seq<char>>) -> Seq<char>
    decreases items.len(),
{
    if items.len() == 0 {
        Seq::empty()
    } else if items.len() == 1 {
        items[0]
    } else {
        text_seq_joined(items.drop_last()) + seq![',', ' '] + items.last()
    }
}

/// The canonical display form of `v`, per `display_text`.
pub fn value_display_string(v: &Value) -> (r: String)
    ensures
        r@ == display_text(v@),
    decreases *v, 1int,
{
    match v {
        Value::Null => {
            String::from_str("None")
        },
        Value::Int(i) => crate::num::i64_to_string(*i),
        Value::Float(f) => f.text.clone(),
        Value::Bool(b) => {
            if *b {
                String::from_str("true")
            } else {
                String::from_str("false")
            }
        },
        Value::String(s) => s.clone(),
        Value::Bytes(b) => {
            let ghost m = b@.map_values(|x: u8| x as int);
            let mut out = String::new();
            push_char(&mut out, '[');
            let mut i: usize = 0;
            while i < b.len()
                invariant
                    i <= b@.len(),
                    m == b@.map_values(|x: u8| x as int),
                    out@ == seq!['['] + int_seq_texts(m.subrange(0, i as int)),
                decreases b@.len() - i,
            {
                proof {
                    let pre = m.subrange(0, i + 1);
                    assert(pre.drop_last() =~= m.subrange(0, i as int));
                    assert(pre.last() == m[i as int]);
                }
                if i > 0 {
                    push_char(&mut out, ',');
                    push_char(&mut out, ' ');
                }
                let piece = crate::num::u128_to_string(b[i] as u128);
                out.append(piece.as_str());
                i += 1;
            }
            push_char(&mut out, ']');
            proof {
                assert(m.subrange(0, m.len() as int) =~= m);
                assert(out@ =~= display_text(v@));
            }
            out
        },
        Value::Pointer(k) => {
            let mut out = String::new();
            push_char(&mut out, '^');
            let piece = crate::num::u128_to_string(k.id);
            out.append(piece.as_str());
            assert(out@ =~= display_text(v@));
            out
        },
        Value::Tuple(items) => {
            let joined = display_values_joined(v, items);
            let mut out = String::new();
            push_char(&mut out, '(');
            out.append(joined.as_str());
            push_char(&mut out, ')');
            assert(out@ =~= display_text(v@));
            out
        },
        Value::List(items) => {
            let joined = display_values_joined(v, items);
            let mut out = String::new();
            push_char(&mut out, '[');
            out.append(joined.as_str());
            push_char(&mut out, ']');
            assert(out@ =~= display_text(v@));
            out
        },
        Value::IntArray(a) => {
            let ghost m = a@.map_values(|x: i64| x as int);
            let mut out = String::new();
            push_char(&mut out, '[');
            let mut i: usize = 0;
            while i < a.len()
                invariant
                    i <= a@.len(),
                    m == a@.map_values(|x: i64| x as int),
                    out@ == seq!['['] + int_seq_texts(m.subrange(0, i as int)),
                decreases a@.len() - i,
            {
                proof {
                    let pre = m.subrange(0, i + 1);
                    assert(pre.drop_last() =~= m.subrange(0, i as int));
                    assert(pre.last() == m[i as int]);
                }
                if i > 0 {
                    push_char(&mut out, ',');
                    push_char(&mut out, ' ');
                }
                let piece = crate::num::i64_to_string(a[i]);
                out.append(piece.as_str());
                i += 1;
            }
            push_char(&mut out, ']');
            proof {
                assert(m.subrange(0, m.len() as int) =~= m);
                assert(out@ =~= display_text(v@));
            }
            out
        },
        Value::FloatArray(a) => {
            let ghost m = Seq::new(a@.len(), |k: int| a@[k]@);
            let mut out = String::new();
            push_char(&mut out, '[');
            let mut i: usize = 0;
            while i < a.len()
                invariant
                    i <= a@.len(),
                    m == Seq::new(a@.len(), |k: int| a@[k]@),
                    out@ == seq!['['] + text_seq_joined(m.subrange(0, i as int)),
                decreases a@.len() - i,
            {
                proof {
                    let pre = m.subrange(0, i + 1);
                    assert(pre.drop_last() =~= m.subrange(0, i as int));
                    assert(pre.last() == m[i as int]);
                }
                if i > 0 {
                    push_char(&mut out, ',');
                    push_char(&mut out, ' ');
                }
                out.append(a[i].text.as_str());
                i += 1;
            }
            push_char(&mut out, ']');
            proof {
                assert(m.subrange(0, m.len() as int) =~= m);
                assert(out@ =~= display_text(v@));
            }
            out
        },
        Value::DateTimeNaive(t) => crate::num::i64_to_string(*t),
        Value::DateTimeUtc(t) => crate::num::i64_to_string(*t),
        Value::Duration(d) => crate::num::i64_to_string(*d),
        Value::Json(j) => json_to_string(j),
        Value::Error => {
            String::from_str("Error")
        },
        Value::PyObjectWrapper => {
            String::from_str("PyObjectWrapper")
        },
    }
}

/// The comma-space-joined display texts of `items`, which must stand below
/// `bound` in the termination order as the payload of its variant.
fn display_values_joined(bound: &Value, items: &Vec<Value>) -> (r: String)
    requires
        *bound == Value::Tuple(*items) || *bound == Value::List(*items),
    ensures
        r@ == display_texts(value_view_seq(items@)),
    decreases *bound, 0int,
{
    let ghost itemsv = value_view_seq(items@);
    proof {
        lemma_value_view_seq(items@);
    }
    let mut out = String::new();
    let mut i: usize = 0;
    while i < items.len()
        invariant
            i <= items@.len(),
            *bound == Value::Tuple(*items) || *bound == Value::List(*items),
            itemsv == value_view_seq(items@),
            itemsv.len() == items@.len(),
            forall|k: int| 0 <= k < items@.len() ==> itemsv[k] == value_view(items@[k]),
            out@ == display_texts(itemsv.subrange(0, i as int)),
        decreases items@.len() - i,
    {
        proof {
            if *bound == Value::Tuple(*items) {
                assert(decreases_to!(*bound => bound->Tuple_0));
                assert(decreases_to!(bound->Tuple_0 => items@[i as int]));
            } else {
                assert(decreases_to!(*bound => bound->List_0));
                assert(decreases_to!(bound->List_0 => items@[i as int]));
            }
            let pre = itemsv.subrange(0, i + 1);
            assert(pre.drop_last() =~= itemsv.subrange(0, i as int));
            assert(pre.last() == itemsv[i as int]);
        }
        if i > 0 {
            push_char(&mut out, ',');
            push_char(&mut out, ' ');
        }
        let piece = value_display_string(&items[i]);
        out.append(piece.as_str());
        i += 1;
    }
    proof {
        assert(itemsv.subrange(0, itemsv.len() as int) =~= itemsv);
    }
    out
}

} // verus!
