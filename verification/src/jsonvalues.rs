//! JSON-to-value coercion, JSON pointer resolution, value-to-JSON
//! serialization, and the shared extraction of named fields from a JSON
//! payload.

use vstd::prelude::*;
use crate::errors::{FormatterError, FormatterErrorS, ParseError, ParseErrorS};
use crate::events::{field_result_view, metadata_name, FieldResult};
use crate::num::{
    all_digits, digit_val, digits_val, int_text, lemma_digits_val_nonneg, lemma_digits_val_prefix,
};
use crate::schema::{schema_seq_get, InnerSchemaFieldS, Schema};
use crate::text::{chars_eq_str, split_on_char, split_text, str_chars, strs_view};
use crate::value::{
    json_view, json_view_seq, lemma_json_entries_view, lemma_json_view_seq, lemma_value_view_seq,
    type_view_seq, lemma_type_view_seq, value_view, value_view_seq, JsonEntry, JsonNumber,
    JsonNumS, JsonS, JsonValue, Type, TypeS, Value, ValueS,
};

verus! {

/// How a JSON subtree coerces to a schema type (deterministic; `None` on
/// mismatch): `Json` wraps anything; `null` satisfies `Optional` and `Any`;
/// `Optional` otherwise defers to its argument; strings satisfy `String`
/// and `Any`; numbers satisfy `Int` when representable in an `i64`,
/// `Float` when representable as a double, and `Any` preferring the
/// integer reading; booleans satisfy `Bool` and `Any`; arrays satisfy
/// `Tuple` positionally, `List` elementwise, and `Any` as a list of `Any`.
pub open spec fn coerce_json(v: JsonS, t: TypeS) -> Option<ValueS>
    decreases v, t,
{
    match t {
        TypeS::Json => Some(ValueS::Json(v)),
        TypeS::Optional(arg) => match v {
            JsonS::Null => Some(ValueS::Null),
            _ => coerce_json(v, *arg),
        },
        TypeS::Any => match v {
            JsonS::Null => Some(ValueS::Null),
            JsonS::Str(s) => Some(ValueS::Str(s)),
            JsonS::Number(n) => match n.as_int {
                Some(i) => Some(ValueS::Int(i)),
                None => match n.float_repr {
                    Some(f) => Some(ValueS::Float(f)),
                    None => None,
                },
            },
            JsonS::Bool(b) => Some(ValueS::Bool(b)),
            JsonS::Array(items) => match coerce_json_list(items, TypeS::Any) {
                Some(vs) => Some(ValueS::List(vs)),
                None => None,
            },
            _ => None,
        },
        TypeS::Str => match v {
            JsonS::Str(s) => Some(ValueS::Str(s)),
            _ => None,
        },
        TypeS::Int => match v {
            JsonS::Number(n) => match n.as_int {
                Some(i) => Some(ValueS::Int(i)),
                None => None,
            },
            _ => None,
        },
        TypeS::Float => match v {
            JsonS::Number(n) => match n.float_repr {
                Some(f) => Some(ValueS::Float(f)),
                None => None,
            },
            _ => None,
        },
        TypeS::Bool => match v {
            JsonS::Bool(b) => Some(ValueS::Bool(b)),
            _ => None,
        },
        TypeS::Tuple(ts) => match v {
            JsonS::Array(items) => match coerce_json_tuple(items, ts) {
                Some(vs) => Some(ValueS::Tuple(vs)),
                None => None,
            },
            _ => None,
        },
        TypeS::List(arg) => match v {
            JsonS::Array(items) => match coerce_json_list(items, *arg) {
                Some(vs) => Some(ValueS::List(vs)),
                None => None,
            },
            _ => None,
        },
        _ => None,
    }
}

/// Elementwise coercion of an array to one type.
pub open spec fn coerce_json_list(items: Seq<JsonS>, t: TypeS) -> Option<Seq<ValueS>>
    decreases items, t, 1int,
{
    if items.len() == 0 {
        Some(Seq::empty())
    } else {
        match coerce_json(items[0], t) {
            Some(head) => match coerce_json_list(items.drop_first(), t) {
                Some(rest) => Some(seq![head] + rest),
                None => None,
            },
            None => None,
        }
    }
}

/// Positional coercion of an array to a tuple of types; the lengths must
/// agree.
pub open spec fn coerce_json_tuple(items: Seq<JsonS>, ts: Seq<TypeS>) -> Option<Seq<ValueS>>
    decreases items, ts,
{
    if items.len() != ts.len() {
        None
    } else if items.len() == 0 {
        Some(Seq::empty())
    } else {
        match coerce_json(items[0], ts[0]) {
            Some(head) => match coerce_json_tuple(items.drop_first(), ts.drop_first()) {
                Some(rest) => Some(seq![head] + rest),
                None => None,
            },
            None => None,
        }
    }
}

/// Coerces one JSON subtree to one schema type, per `coerce_json`.
pub fn parse_value_from_json(value: &JsonValue, dtype: &Type) -> (r: Option<Value>)
    ensures
        match r {
            Some(v) => coerce_json(value@, dtype@) == Some(v@),
            None => coerce_json(value@, dtype@) is None,
        },
    decreases *value, *dtype, 0int,
{
    match dtype {
        Type::Json => Some(Value::Json(value.duplicate())),
        Type::Optional(arg) => match value {
            JsonValue::Null => Some(Value::Null),
            _ => {
                proof {
                    assert(decreases_to!(*dtype => dtype->Optional_0));
                }
                parse_value_from_json(value, &**arg)
            },
        },
        Type::Any => match value {
            JsonValue::Null => Some(Value::Null),
            JsonValue::Str(s) => Some(Value::String(s.clone())),
            JsonValue::Number(n) => match n.as_int {
                Some(i) => Some(Value::Int(i)),
                None => match &n.float_repr {
                    Some(f) => Some(Value::Float(crate::value::FloatRepr { text: f.clone() })),
                    None => None,
                },
            },
            JsonValue::Bool(b) => Some(Value::Bool(*b)),
            JsonValue::Array(items) => {
                proof {
                    assert(decreases_to!(*value => value->Array_0));
                }
                match parse_list_from_json(items, &Type::Any) {
                    Some(vs) => Some(Value::List(vs)),
                    None => None,
                }
            },
            _ => None,
        },
        Type::String => match value {
            JsonValue::Str(s) => Some(Value::String(s.clone())),
            _ => None,
        },
        Type::Int => match value {
            JsonValue::Number(n) => match n.as_int {
                Some(i) => Some(Value::Int(i)),
                None => None,
            },
            _ => None,
        },
        Type::Float => match value {
            JsonValue::Number(n) => match &n.float_repr {
                Some(f) => Some(Value::Float(crate::value::FloatRepr { text: f.clone() })),
                None => None,
            },
            _ => None,
        },
        Type::Bool => match value {
            JsonValue::Bool(b) => Some(Value::Bool(*b)),
            _ => None,
        },
        Type::Tuple(ts) => match value {
            JsonValue::Array(items) => {
                proof {
                    assert(decreases_to!(*value => value->Array_0));
                    assert(decreases_to!(*dtype => dtype->Tuple_0));
                }
                match parse_tuple_from_json(items, ts) {
                    Some(vs) => Some(Value::Tuple(vs)),
                    None => None,
                }
            },
            _ => None,
        },
        Type::List(arg) => match value {
            JsonValue::Array(items) => {
                proof {
                    assert(decreases_to!(*value => value->Array_0));
                    assert(decreases_to!(*dtype => dtype->List_0));
                }
                match parse_list_from_json(items, &**arg) {
                    Some(vs) => Some(Value::List(vs)),
                    None => None,
                }
            },
            _ => None,
        },
        _ => None,
    }
}

/// Elementwise coercion of an array to one type, per `coerce_json_list`.
fn parse_list_from_json(items: &Vec<JsonValue>, t: &Type) -> (r: Option<Vec<Value>>)
    ensures
        match r {
            Some(vs) => coerce_json_list(json_view_seq(items@), t@) == Some(value_view_seq(vs@)),
            None => coerce_json_list(json_view_seq(items@), t@) is None,
        },
    decreases items@, *t, 1int,
{
    let ghost itemsv = json_view_seq(items@);
    proof {
        lemma_json_view_seq(items@);
    }
    let mut out: Vec<Value> = Vec::new();
    let mut i: usize = 0;
    while i < items.len()
        invariant
            itemsv == json_view_seq(items@),
            itemsv.len() == items@.len(),
            forall|k: int| 0 <= k < items@.len() ==> itemsv[k] == json_view(items@[k]),
            i <= items@.len(),
            out@.len() == i,
            forall|k: int| 0 <= k < i ==> coerce_json(itemsv[k], t@) == Some(
                value_view_seq(out@)[k],
            ),
        decreases items@.len() - i,
    {
        proof {
            assert(decreases_to!(items@ => items@[i as int]));
        }
        let item = match parse_value_from_json(&items[i], t) {
            Some(v) => v,
            None => {
                proof {
                    lemma_coerce_list_fail(itemsv, t@, i as int);
                }
                return None;
            },
        };
        let ghost out0 = out@;
        out.push(item);
        proof {
            lemma_value_view_seq(out0);
            lemma_value_view_seq(out@);
            assert forall|k: int| 0 <= k < i + 1 implies coerce_json(itemsv[k], t@) == Some(
                value_view_seq(out@)[k],
            ) by {
                assert(value_view_seq(out@)[k] == value_view(out@[k]));
                if k < i {
                    assert(out@[k] == out0[k]);
                    assert(value_view_seq(out0)[k] == value_view(out0[k]));
                } else {
                    assert(out@[k] == item);
                }
            }
        }
        i += 1;
    }
    proof {
        lemma_value_view_seq(out@);
        lemma_coerce_list_all(itemsv, t@, value_view_seq(out@));
    }
    Some(out)
}

/// When every element coerces, the list coerces to the collected values.
proof fn lemma_coerce_list_all(items: Seq<JsonS>, t: TypeS, out: Seq<ValueS>)
    requires
        out.len() == items.len(),
        forall|j: int| 0 <= j < items.len() ==> coerce_json(items[j], t) == Some(out[j]),
    ensures
        coerce_json_list(items, t) == Some(out),
    decreases items.len(),
{
    if items.len() > 0 {
        assert forall|j: int| 0 <= j < items.drop_first().len() implies coerce_json(
            items.drop_first()[j],
            t,
        ) == Some(out.drop_first()[j]) by {
            assert(items.drop_first()[j] == items[j + 1]);
            assert(out.drop_first()[j] == out[j + 1]);
        }
        lemma_coerce_list_all(items.drop_first(), t, out.drop_first());
        assert(seq![out[0]] + out.drop_first() =~= out);
    } else {
        assert(out =~= Seq::<ValueS>::empty());
    }
}

/// When element `k` fails to coerce, the whole list fails.
proof fn lemma_coerce_list_fail(items: Seq<JsonS>, t: TypeS, k: int)
    requires
        0 <= k < items.len(),
        coerce_json(items[k], t) is None,
    ensures
        coerce_json_list(items, t) is None,
    decreases k,
{
    if k == 0 {
    } else {
        assert(items.drop_first()[k - 1] == items[k]);
        lemma_coerce_list_fail(items.drop_first(), t, k - 1);
    }
}

/// Positional coercion of an array to a tuple of types, per
/// `coerce_json_tuple`.
fn parse_tuple_from_json(items: &Vec<JsonValue>, ts: &Vec<Type>) -> (r: Option<Vec<Value>>)
    ensures
        match r {
            Some(vs) => coerce_json_tuple(json_view_seq(items@), type_view_seq(ts@)) == Some(
                value_view_seq(vs@),
            ),
            None => coerce_json_tuple(json_view_seq(items@), type_view_seq(ts@)) is None,
        },
    decreases items@, ts@, 1int,
{
    let ghost itemsv = json_view_seq(items@);
    let ghost tsv = type_view_seq(ts@);
    proof {
        lemma_json_view_seq(items@);
        lemma_type_view_seq(ts@);
    }
    if items.len() != ts.len() {
        return None;
    }
    let mut out: Vec<Value> = Vec::new();
    let mut i: usize = 0;
    while i < items.len()
        invariant
            itemsv == json_view_seq(items@),
            tsv == type_view_seq(ts@),
            itemsv.len() == items@.len(),
            tsv.len() == ts@.len(),
            items@.len() == ts@.len(),
            forall|k: int| 0 <= k < items@.len() ==> itemsv[k] == json_view(items@[k]),
            forall|k: int| 0 <= k < ts@.len() ==> tsv[k] == crate::value::type_view(ts@[k]),
            i <= items@.len(),
            out@.len() == i,
            forall|k: int| 0 <= k < i ==> coerce_json(itemsv[k], tsv[k]) == Some(
                value_view_seq(out@)[k],
            ),
        decreases items@.len() - i,
    {
        proof {
            assert(decreases_to!(items@ => items@[i as int]));
        }
        let item = match parse_value_from_json(&items[i], &ts[i]) {
            Some(v) => v,
            None => {
                proof {
                    lemma_coerce_tuple_fail(itemsv, tsv, i as int);
                }
                return None;
            },
        };
        let ghost out0 = out@;
        out.push(item);
        proof {
            lemma_value_view_seq(out0);
            lemma_value_view_seq(out@);
            assert forall|k: int| 0 <= k < i + 1 implies coerce_json(itemsv[k], tsv[k]) == Some(
                value_view_seq(out@)[k],
            ) by {
                assert(value_view_seq(out@)[k] == value_view(out@[k]));
                if k < i {
                    assert(out@[k] == out0[k]);
                    assert(value_view_seq(out0)[k] == value_view(out0[k]));
                } else {
                    assert(out@[k] == item);
                }
            }
        }
        i += 1;
    }
    proof {
        lemma_value_view_seq(out@);
        lemma_coerce_tuple_prefix(itemsv, tsv, value_view_seq(out@));
    }
    Some(out)
}

/// When every position coerces, the tuple coerces to the collected values.
proof fn lemma_coerce_tuple_prefix(items: Seq<JsonS>, ts: Seq<TypeS>, out: Seq<ValueS>)
    requires
        items.len() == ts.len(),
        out.len() == items.len(),
        forall|j: int| 0 <= j < items.len() ==> coerce_json(items[j], ts[j]) == Some(out[j]),
    ensures
        coerce_json_tuple(items, ts) == Some(out),
    decreases items.len(),
{
    if items.len() > 0 {
        assert forall|j: int| 0 <= j < items.drop_first().len() implies coerce_json(
            items.drop_first()[j],
            ts.drop_first()[j],
        ) == Some(out.drop_first()[j]) by {
            assert(items.drop_first()[j] == items[j + 1]);
            assert(ts.drop_first()[j] == ts[j + 1]);
            assert(out.drop_first()[j] == out[j + 1]);
        }
        lemma_coerce_tuple_prefix(items.drop_first(), ts.drop_first(), out.drop_first());
        assert(seq![out[0]] + out.drop_first() =~= out);
    } else {
        assert(out =~= Seq::<ValueS>::empty());
    }
}

/// When position `k` fails to coerce, the tuple fails.
proof fn lemma_coerce_tuple_fail(items: Seq<JsonS>, ts: Seq<TypeS>, k: int)
    requires
        items.len() == ts.len(),
        0 <= k < items.len(),
        coerce_json(items[k], ts[k]) is None,
    ensures
        coerce_json_tuple(items, ts) is None,
    decreases k,
{
    if k > 0 {
        assert(items.drop_first()[k - 1] == items[k]);
        assert(ts.drop_first()[k - 1] == ts[k]);
        lemma_coerce_tuple_fail(items.drop_first(), ts.drop_first(), k - 1);
    }
}

/// One left-to-right pass of JSON-pointer unescaping: `~0` denotes `~`,
/// `~1` denotes `/`.
pub open spec fn unescape_token(t: Seq<char>) -> Seq<char>
    decreases t.len(),
{
    if t.len() == 0 {
        Seq::empty()
    } else if t[0] == '~' && t.len() >= 2 && t[1] == '0' {
        seq!['~'] + unescape_token(t.skip(2))
    } else if t[0] == '~' && t.len() >= 2 && t[1] == '1' {
        seq!['/'] + unescape_token(t.skip(2))
    } else {
        seq![t[0]] + unescape_token(t.skip(1))
    }
}

/// The array position a pointer token denotes: one or more digits, no
/// leading zero (except `0` itself), within the machine's index range.
pub open spec fn array_index_of(t: Seq<char>) -> Option<int> {
    if t.len() > 0 && all_digits(t) && (t.len() == 1 || t[0] != '0') && digits_val(t)
        <= usize::MAX {
        Some(digits_val(t))
    } else {
        None
    }
}

/// One descent step per unescaped token: object entries by name, array
/// elements by position; anything else stops the resolution.
pub open spec fn pointer_from(j: JsonS, toks: Seq<Seq<char>>) -> Option<JsonS>
    decreases toks.len(),
{
    if toks.len() == 0 {
        Some(j)
    } else {
        let t = unescape_token(toks[0]);
        match j {
            JsonS::Object(entries) => if j.has(t) {
                pointer_from(j.get(t), toks.drop_first())
            } else {
                None
            },
            JsonS::Array(items) => match array_index_of(t) {
                Some(k) => if 0 <= k < items.len() {
                    pointer_from(items[k], toks.drop_first())
                } else {
                    None
                },
                None => None,
            },
            _ => None,
        }
    }
}

/// JSON-pointer resolution: the empty pointer is the whole document, any
/// other pointer starts with `/` and descends one token per segment.
pub open spec fn json_pointer_spec(j: JsonS, path: Seq<char>) -> Option<JsonS> {
    if path.len() == 0 {
        Some(j)
    } else if path[0] != '/' {
        None
    } else {
        pointer_from(j, split_text(path.skip(1), '/'))
    }
}

/// Unescapes one pointer token, per `unescape_token`.
fn unescape_chars(t: &Vec<char>) -> (r: Vec<char>)
    ensures
        r@ == unescape_token(t@),
{
    let mut out: Vec<char> = Vec::new();
    let mut i: usize = 0;
    proof {
        assert(t@.skip(0) =~= t@);
        assert(Seq::<char>::empty() + unescape_token(t@) =~= unescape_token(t@));
    }
    while i < t.len()
        invariant
            i <= t@.len(),
            unescape_token(t@) == out@ + unescape_token(t@.skip(i as int)),
        decreases t@.len() - i,
    {
        proof {
            assert(t@.skip(i as int)[0] == t@[i as int]);
            if i + 1 < t@.len() {
                assert(t@.skip(i as int)[1] == t@[i + 1]);
            }
            assert(t@.skip(i as int).skip(1) =~= t@.skip(i + 1));
            if i + 2 <= t@.len() {
                assert(t@.skip(i as int).skip(2) =~= t@.skip(i + 2));
            }
            assert(t@.skip(i as int).len() == t@.len() - i);
        }
        if t[i] == '~' && i + 1 < t.len() && t[i + 1] == '0' {
            out.push('~');
            proof {
                assert(out@ + unescape_token(t@.skip(i + 2)) =~= unescape_token(t@));
            }
            i += 2;
        } else if t[i] == '~' && i + 1 < t.len() && t[i + 1] == '1' {
            out.push('/');
            proof {
                assert(out@ + unescape_token(t@.skip(i + 2)) =~= unescape_token(t@));
            }
            i += 2;
        } else {
            out.push(t[i]);
            proof {
                assert(out@ + unescape_token(t@.skip(i + 1)) =~= unescape_token(t@));
            }
            i += 1;
        }
    }
    proof {
        assert(t@.skip(t@.len() as int) =~= Seq::<char>::empty());
        assert(out@ + unescape_token(t@.skip(t@.len() as int)) =~= out@);
    }
    out
}

/// Reads an array position from one unescaped token, per `array_index_of`.
fn parse_array_index(t: &Vec<char>) -> (r: Option<usize>)
    ensures
        match r {
            Some(k) => array_index_of(t@) == Some(k as int),
            None => array_index_of(t@) is None,
        },
{
    let n = t.len();
    if n == 0 {
        return None;
    }
    if n > 1 && t[0] == '0' {
        return None;
    }
    let cap: u128 = usize::MAX as u128;
    let mut acc: u128 = 0;
    let mut i: usize = 0;
    while i < n
        invariant
            n == t@.len(),
            n > 0,
            i <= n,
            cap == usize::MAX as u128,
            all_digits(t@.subrange(0, i as int)),
            acc <= cap + 1,
            digits_val(t@.subrange(0, i as int)) <= cap ==> acc == digits_val(
                t@.subrange(0, i as int),
            ),
            digits_val(t@.subrange(0, i as int)) > cap ==> acc == cap + 1,
        decreases n - i,
    {
        let c = t[i];
        if c < '0' || c > '9' {
            assert(!is_digit_at(t@, i as int));
            return None;
        }
        let d: u128 = (c as u8 - 48) as u128;
        proof {
            let pre = t@.subrange(0, i as int);
            let ext = t@.subrange(0, i + 1);
            assert(ext.drop_last() =~= pre);
            assert(ext.last() == t@[i as int]);
            assert(digits_val(ext) == digits_val(pre) * 10 + digit_val(t@[i as int]));
            assert(0 <= digit_val(t@[i as int]) <= 9);
            assert(digit_val(t@[i as int]) == d);
            lemma_digits_val_nonneg(pre);
        }
        if acc > cap / 10 || (acc == cap / 10 && d > cap % 10) {
            proof {
                let pre = t@.subrange(0, i as int);
                let ext = t@.subrange(0, i + 1);
                if digits_val(pre) <= cap {
                    assert(digits_val(ext) == acc * 10 + d);
                    assert(digits_val(ext) > cap);
                } else {
                    assert(digits_val(pre) * 10 > cap);
                }
            }
            acc = cap + 1;
        } else {
            acc = acc * 10 + d;
        }
        i += 1;
    }
    proof {
        assert(t@.subrange(0, n as int) =~= t@);
    }
    if acc <= cap {
        assert(digits_val(t@) == acc) by {
            if digits_val(t@) > cap {
                assert(acc == cap + 1);
            }
        }
        Some(acc as usize)
    } else {
        proof {
            lemma_digits_val_nonneg(t@);
            if digits_val(t@) <= cap {
                assert(acc == digits_val(t@));
            }
        }
        None
    }
}

/// Whether position `i` of `s` holds a digit.
pub open spec fn is_digit_at(s: Seq<char>, i: int) -> bool {
    crate::num::is_dec_digit(s[i])
}

/// The first object entry named `name` lands on the first match.
proof fn lemma_json_get_prefix(entries: Seq<(Seq<char>, JsonS)>, name: Seq<char>, k: int)
    requires
        0 <= k < entries.len(),
        forall|j: int| 0 <= j < k ==> entries[j].0 != name,
        entries[k].0 == name,
    ensures
        JsonS::seq_get(entries, name) == entries[k].1,
    decreases k,
{
    if k > 0 {
        lemma_json_get_prefix(entries.skip(1), name, k - 1);
        assert(entries.skip(1)[k - 1] == entries[k]);
    }
}

/// When no entry carries the name, the lookup yields `Null`.
proof fn lemma_json_get_none(entries: Seq<(Seq<char>, JsonS)>, name: Seq<char>)
    requires
        forall|j: int| 0 <= j < entries.len() ==> entries[j].0 != name,
    ensures
        JsonS::seq_get(entries, name) == JsonS::Null,
    decreases entries.len(),
{
    if entries.len() > 0 {
        assert forall|j: int| 0 <= j < entries.skip(1).len() implies entries.skip(1)[j].0
            != name by {
            assert(entries.skip(1)[j] == entries[j + 1]);
        }
        lemma_json_get_none(entries.skip(1), name);
    }
}

/// Looks the name up in an object payload: the first entry wins; `None`
/// when the payload is no object or has no such entry.
pub fn json_get<'a>(payload: &'a JsonValue, name: &Vec<char>) -> (r: Option<&'a JsonValue>)
    ensures
        r is Some <==> payload@.has(name@),
        r matches Some(v) ==> payload@.get(name@) == v@,
        r is None ==> payload@.get(name@) == JsonS::Null,
{
    match payload {
        JsonValue::Object(entries) => {
            let ghost entsv = crate::value::json_entries_view(entries@);
            proof {
                lemma_json_entries_view(entries@);
            }
            let mut i: usize = 0;
            while i < entries.len()
                invariant
                    *payload == JsonValue::Object(*entries),
                    entsv == crate::value::json_entries_view(entries@),
                    entsv.len() == entries@.len(),
                    forall|k: int| 0 <= k < entries@.len() ==> entsv[k] == (
                        entries@[k].name@,
                        json_view(entries@[k].value),
                    ),
                    i <= entries@.len(),
                    forall|j: int| 0 <= j < i ==> entsv[j].0 != name@,
                decreases entries@.len() - i,
            {
                if chars_eq_str(name, entries[i].name.as_str()) {
                    proof {
                        lemma_json_get_prefix(entsv, name@, i as int);
                    }
                    return Some(&entries[i].value);
                }
                i += 1;
            }
            proof {
                lemma_json_get_none(entsv, name@);
                if payload@.has(name@) {
                    let j = choose|j: int| 0 <= j < entsv.len() && entsv[j].0 == name@;
                    assert(entsv[j].0 != name@);
                }
            }
            None
        },
        _ => None,
    }
}

/// Resolves a JSON pointer, per `json_pointer_spec`. The result is a copy
/// of the subtree.
pub fn json_pointer(j: &JsonValue, path: &str) -> (r: Option<JsonValue>)
    ensures
        match r {
            Some(v) => json_pointer_spec(j@, path@) == Some(v@),
            None => json_pointer_spec(j@, path@) is None,
        },
{
    let pathc = str_chars(path);
    if pathc.len() == 0 {
        return Some(j.duplicate());
    }
    if pathc[0] != '/' {
        return None;
    }
    let mut rest: Vec<char> = Vec::new();
    let mut i: usize = 1;
    while i < pathc.len()
        invariant
            1 <= i <= pathc@.len(),
            pathc@.len() >= 1,
            rest@ =~= pathc@.subrange(1, i as int),
        decreases pathc@.len() - i,
    {
        rest.push(pathc[i]);
        i += 1;
    }
    proof {
        assert(rest@ =~= pathc@.skip(1));
    }
    let toks = split_on_char(&rest, '/');
    let ghost toksv = split_text(pathc@.skip(1), '/');
    let mut cur = j.duplicate();
    let mut k: usize = 0;
    proof {
        assert(toksv.skip(0) =~= toksv);
        assert(json_pointer_spec(j@, pathc@) == pointer_from(j@, toksv));
    }
    while k < toks.len()
        invariant
            strs_view(toks@) == toksv,
            toks@.len() == toksv.len(),
            k <= toks@.len(),
            pointer_from(cur@, toksv.skip(k as int)) == json_pointer_spec(j@, pathc@),
            pathc@ == path@,
        decreases toks@.len() - k,
    {
        proof {
            assert(toksv.skip(k as int)[0] == toksv[k as int]);
            assert(toksv[k as int] == toks@[k as int]@);
            assert(toksv.skip(k as int).drop_first() =~= toksv.skip(k + 1));
            assert(toksv.skip(k as int).len() == toksv.len() - k);
        }
        let tchars = str_chars(toks[k].as_str());
        let t = unescape_chars(&tchars);
        let next: JsonValue = match &cur {
            JsonValue::Object(_) => {
                match json_get(&cur, &t) {
                    Some(v) => v.duplicate(),
                    None => {
                        return None;
                    },
                }
            },
            JsonValue::Array(items) => {
                match parse_array_index(&t) {
                    Some(idx) => {
                        if idx < items.len() {
                            proof {
                                lemma_json_view_seq(items@);
                            }
                            items[idx].duplicate()
                        } else {
                            proof {
                                lemma_json_view_seq(items@);
                            }
                            return None;
                        }
                    },
                    None => {
                        return None;
                    },
                }
            },
            _ => {
                return None;
            },
        };
        cur = next;
        k += 1;
    }
    proof {
        assert(toksv.skip(toksv.len() as int) =~= Seq::<Seq<char>>::empty());
    }
    Some(cur)
}

/// How one value serializes to a JSON tree: `Error` and host-object
/// wrappers are not serializable; bytes and numeric arrays become arrays of
/// numbers; temporal values become their canonical string form; durations
/// become their nanoseconds; pointers become their display text.
pub open spec fn value_to_json(v: ValueS) -> Result<JsonS, FormatterErrorS>
    decreases v,
{
    match v {
        ValueS::Null => Ok(JsonS::Null),
        ValueS::Int(i) => Ok(JsonS::Number(int_num(i as int))),
        ValueS::Float(t) => Ok(
            JsonS::Number(JsonNumS { as_int: None, float_repr: Some(t), repr: t }),
        ),
        ValueS::Bool(b) => Ok(JsonS::Bool(b)),
        ValueS::Str(t) => Ok(JsonS::Str(t)),
        ValueS::Bytes(b) => Ok(
            JsonS::Array(b.map_values(|x: u8| JsonS::Number(int_num(x as int)))),
        ),
        ValueS::Pointer(k) => Ok(JsonS::Str(seq!['^'] + crate::num::dec_text(k as nat))),
        ValueS::Tuple(items) => match values_to_json(items) {
            Ok(js) => Ok(JsonS::Array(js)),
            Err(e) => Err(e),
        },
        ValueS::List(items) => match values_to_json(items) {
            Ok(js) => Ok(JsonS::Array(js)),
            Err(e) => Err(e),
        },
        ValueS::IntArray(a) => Ok(
            JsonS::Array(a.map_values(|x: i64| JsonS::Number(int_num(x as int)))),
        ),
        ValueS::FloatArray(a) => Ok(
            JsonS::Array(
                a.map_values(
                    |t: Seq<char>| JsonS::Number(
                        JsonNumS { as_int: None, float_repr: Some(t), repr: t },
                    ),
                ),
            ),
        ),
        ValueS::DateTimeNaive(t) => Ok(JsonS::Str(int_text(t as int))),
        ValueS::DateTimeUtc(t) => Ok(JsonS::Str(int_text(t as int))),
        ValueS::Duration(d) => Ok(JsonS::Number(int_num(d as int))),
        ValueS::Json(j) => Ok(j),
        ValueS::Error => Err(FormatterErrorS::ErrorValueNonJsonSerializable),
        ValueS::PyObjectWrapper => Err(
            FormatterErrorS::TypeNonJsonSerializable { type_: TypeS::PyObjectWrapper },
        ),
    }
}

/// The JSON number carrying an integer, rendered in decimal.
pub open spec fn int_num(i: int) -> JsonNumS {
    JsonNumS { as_int: Some(i as i64), float_repr: None, repr: int_text(i) }
}

/// Elementwise serialization; the first failure wins.
pub open spec fn values_to_json(items: Seq<ValueS>) -> Result<Seq<JsonS>, FormatterErrorS>
    decreases items,
{
    if items.len() == 0 {
        Ok(Seq::empty())
    } else {
        match value_to_json(items[0]) {
            Ok(head) => match values_to_json(items.drop_first()) {
                Ok(rest) => Ok(seq![head] + rest),
                Err(e) => Err(e),
            },
            Err(e) => Err(e),
        }
    }
}

/// Serializes one value to a JSON tree, per `value_to_json`.
pub fn serialize_value_to_json(value: &Value) -> (r: Result<JsonValue, FormatterError>)
    ensures
        match r {
            Ok(j) => value_to_json(value@) == Ok::<JsonS, FormatterErrorS>(j@),
            Err(e) => value_to_json(value@) == Err::<JsonS, FormatterErrorS>(e@),
        },
    decreases *value, 0int,
{
    match value {
        Value::Null => Ok(JsonValue::Null),
        Value::Int(i) => Ok(JsonValue::Number(int_number(*i))),
        Value::Float(f) => Ok(JsonValue::Number(JsonNumber {
            as_int: None,
            float_repr: Some(f.text.clone()),
            repr: f.text.clone(),
        })),
        Value::Bool(b) => Ok(JsonValue::Bool(*b)),
        Value::String(t) => Ok(JsonValue::Str(t.clone())),
        Value::Bytes(b) => {
            let ghost m = b@.map_values(|x: u8| JsonS::Number(int_num(x as int)));
            let mut out: Vec<JsonValue> = Vec::new();
            let mut i: usize = 0;
            while i < b.len()
                invariant
                    m == b@.map_values(|x: u8| JsonS::Number(int_num(x as int))),
                    i <= b@.len(),
                    out@.len() == i,
                    forall|k: int| 0 <= k < i ==> json_view(#[trigger] out@[k]) == m[k],
                decreases b@.len() - i,
            {
                let x = b[i];
                out.push(JsonValue::Number(JsonNumber {
                    as_int: Some(x as i64),
                    float_repr: None,
                    repr: crate::num::u128_to_string(x as u128),
                }));
                i += 1;
            }
            proof {
                lemma_json_view_seq(out@);
                assert(json_view_seq(out@) =~= m);
            }
            Ok(JsonValue::Array(out))
        },
        Value::Pointer(k) => {
            let mut t = String::new();
            crate::text::push_char(&mut t, '^');
            let digits = crate::num::u128_to_string(k.id);
            let full = t.concat(digits.as_str());
            proof {
                assert(full@ =~= seq!['^'] + crate::num::dec_text(k.id as nat));
            }
            Ok(JsonValue::Str(full))
        },
        Value::Tuple(items) => {
            proof {
                assert(decreases_to!(*value => value->Tuple_0));
            }
            match serialize_values(items) {
                Ok(js) => Ok(JsonValue::Array(js)),
                Err(e) => Err(e),
            }
        },
        Value::List(items) => {
            proof {
                assert(decreases_to!(*value => value->List_0));
            }
            match serialize_values(items) {
                Ok(js) => Ok(JsonValue::Array(js)),
                Err(e) => Err(e),
            }
        },
        Value::IntArray(a) => {
            let ghost m = a@.map_values(|x: i64| JsonS::Number(int_num(x as int)));
            let mut out: Vec<JsonValue> = Vec::new();
            let mut i: usize = 0;
            while i < a.len()
                invariant
                    m == a@.map_values(|x: i64| JsonS::Number(int_num(x as int))),
                    i <= a@.len(),
                    out@.len() == i,
                    forall|k: int| 0 <= k < i ==> json_view(#[trigger] out@[k]) == m[k],
                decreases a@.len() - i,
            {
                out.push(JsonValue::Number(int_number(a[i])));
                i += 1;
            }
            proof {
                lemma_json_view_seq(out@);
                assert(json_view_seq(out@) =~= m);
            }
            Ok(JsonValue::Array(out))
        },
        Value::FloatArray(a) => {
            let ghost m = a@.map_values(
                |t: crate::value::FloatRepr| JsonS::Number(
                    JsonNumS { as_int: None, float_repr: Some(t@), repr: t@ },
                ),
            );
            let mut out: Vec<JsonValue> = Vec::new();
            let mut i: usize = 0;
            while i < a.len()
                invariant
                    m == a@.map_values(
                        |t: crate::value::FloatRepr| JsonS::Number(
                            JsonNumS { as_int: None, float_repr: Some(t@), repr: t@ },
                        ),
                    ),
                    i <= a@.len(),
                    out@.len() == i,
                    forall|k: int| 0 <= k < i ==> json_view(#[trigger] out@[k]) == m[k],
                decreases a@.len() - i,
            {
                out.push(JsonValue::Number(JsonNumber {
                    as_int: None,
                    float_repr: Some(a[i].text.clone()),
                    repr: a[i].text.clone(),
                }));
                i += 1;
            }
            proof {
                lemma_json_view_seq(out@);
                let expect = value_to_json(value@)->Ok_0->Array_0;
                assert forall|k: int| 0 <= k < a@.len() implies m[k] == expect[k] by {
                    assert(value_view(*value) == ValueS::FloatArray(
                        Seq::new(a@.len(), |q: int| a@[q]@),
                    ));
                }
                assert(json_view_seq(out@) =~= expect);
            }
            Ok(JsonValue::Array(out))
        },
        Value::DateTimeNaive(t) => Ok(JsonValue::Str(crate::num::i64_to_string(*t))),
        Value::DateTimeUtc(t) => Ok(JsonValue::Str(crate::num::i64_to_string(*t))),
        Value::Duration(d) => Ok(JsonValue::Number(int_number(*d))),
        Value::Json(j) => Ok(j.duplicate()),
        Value::Error => Err(FormatterError::ErrorValueNonJsonSerializable),
        Value::PyObjectWrapper => Err(FormatterError::TypeNonJsonSerializable {
            type_: Type::PyObjectWrapper,
        }),
    }
}

/// The executable JSON number carrying an integer.
pub fn int_number(i: i64) -> (r: JsonNumber)
    ensures
        r@ == int_num(i as int),
{
    JsonNumber { as_int: Some(i), float_repr: None, repr: crate::num::i64_to_string(i) }
}

/// Elementwise serialization of a row, per `values_to_json`.
fn serialize_values(items: &Vec<Value>) -> (r: Result<Vec<JsonValue>, FormatterError>)
    ensures
        match r {
            Ok(js) => values_to_json(value_view_seq(items@)) == Ok::<
                Seq<JsonS>,
                FormatterErrorS,
            >(json_view_seq(js@)),
            Err(e) => values_to_json(value_view_seq(items@)) == Err::<
                Seq<JsonS>,
                FormatterErrorS,
            >(e@),
        },
    decreases items@, 1int,
{
    let ghost itemsv = value_view_seq(items@);
    proof {
        lemma_value_view_seq(items@);
    }
    let mut out: Vec<JsonValue> = Vec::new();
    let mut i: usize = 0;
    while i < items.len()
        invariant
            itemsv == value_view_seq(items@),
            itemsv.len() == items@.len(),
            forall|k: int| 0 <= k < items@.len() ==> itemsv[k] == value_view(items@[k]),
            i <= items@.len(),
            out@.len() == i,
            forall|k: int| 0 <= k < i ==> value_to_json(itemsv[k]) == Ok::<
                JsonS,
                FormatterErrorS,
            >(json_view_seq(out@)[k]),
        decreases items@.len() - i,
    {
        proof {
            assert(decreases_to!(items@ => items@[i as int]));
        }
        let item = match serialize_value_to_json(&items[i]) {
            Ok(j) => j,
            Err(e) => {
                proof {
                    lemma_values_to_json_fail(itemsv, i as int, e@);
                }
                return Err(e);
            },
        };
        let ghost out0 = out@;
        out.push(item);
        proof {
            lemma_json_view_seq(out0);
            lemma_json_view_seq(out@);
            assert forall|k: int| 0 <= k < i + 1 implies value_to_json(itemsv[k]) == Ok::<
                JsonS,
                FormatterErrorS,
            >(json_view_seq(out@)[k]) by {
                assert(json_view_seq(out@)[k] == json_view(out@[k]));
                if k < i {
                    assert(out@[k] == out0[k]);
                    assert(json_view_seq(out0)[k] == json_view(out0[k]));
                } else {
                    assert(out@[k] == item);
                }
            }
        }
        i += 1;
    }
    proof {
        lemma_json_view_seq(out@);
        lemma_values_to_json_all(itemsv, json_view_seq(out@));
    }
    Ok(out)
}

/// When every element serializes, the row serializes to the collected
/// trees.
proof fn lemma_values_to_json_all(items: Seq<ValueS>, out: Seq<JsonS>)
    requires
        out.len() == items.len(),
        forall|j: int| 0 <= j < items.len() ==> value_to_json(items[j]) == Ok::<
            JsonS,
            FormatterErrorS,
        >(out[j]),
    ensures
        values_to_json(items) == Ok::<Seq<JsonS>, FormatterErrorS>(out),
    decreases items.len(),
{
    if items.len() > 0 {
        assert forall|j: int| 0 <= j < items.drop_first().len() implies value_to_json(
            items.drop_first()[j],
        ) == Ok::<JsonS, FormatterErrorS>(out.drop_first()[j]) by {
            assert(items.drop_first()[j] == items[j + 1]);
            assert(out.drop_first()[j] == out[j + 1]);
        }
        lemma_values_to_json_all(items.drop_first(), out.drop_first());
        assert(seq![out[0]] + out.drop_first() =~= out);
    } else {
        assert(out =~= Seq::<JsonS>::empty());
    }
}

/// When element `k` is the first to fail, the row fails with its error.
proof fn lemma_values_to_json_fail(items: Seq<ValueS>, k: int, e: FormatterErrorS)
    requires
        0 <= k < items.len(),
        forall|j: int| 0 <= j < k ==> value_to_json(items[j]) is Ok,
        value_to_json(items[k]) == Err::<JsonS, FormatterErrorS>(e),
    ensures
        values_to_json(items) == Err::<Seq<JsonS>, FormatterErrorS>(e),
    decreases k,
{
    if k > 0 {
        assert forall|j: int| 0 <= j < k - 1 implies value_to_json(items.drop_first()[j])
            is Ok by {
            assert(items.drop_first()[j] == items[j + 1]);
        }
        assert(items.drop_first()[k - 1] == items[k]);
        lemma_values_to_json_fail(items.drop_first(), k - 1, e);
    }
}

/// One entry of a string-to-string mapping.
#[derive(Debug, PartialEq, Eq)]
pub struct StrEntry {
    pub name: String,
    pub path: String,
}

/// A mapping from field name to a configured text (a JSON-pointer path for
/// the JSON-lines parser, an expression override for the SQL snapshot
/// formatter); lookup takes the first entry with the sought name.
#[derive(Debug, PartialEq, Eq)]
pub struct StrMap {
    pub entries: Vec<StrEntry>,
}

/// The model of a `StrMap`.
pub open spec fn strmap_view(p: StrMap) -> Seq<(Seq<char>, Seq<char>)> {
    p.entries@.map_values(|e: StrEntry| (e.name@, e.path@))
}

impl View for StrMap {
    type V = Seq<(Seq<char>, Seq<char>)>;

    open spec fn view(&self) -> Seq<(Seq<char>, Seq<char>)> {
        strmap_view(*self)
    }
}

/// The first path configured for `name`, if any.
pub open spec fn strmap_get(entries: Seq<(Seq<char>, Seq<char>)>, name: Seq<char>) -> Option<
    Seq<char>,
>
    decreases entries.len(),
{
    if entries.len() == 0 {
        None
    } else if entries[0].0 == name {
        Some(entries[0].1)
    } else {
        strmap_get(entries.skip(1), name)
    }
}

proof fn lemma_path_get_prefix(entries: Seq<(Seq<char>, Seq<char>)>, name: Seq<char>, k: int)
    requires
        0 <= k < entries.len(),
        forall|j: int| 0 <= j < k ==> entries[j].0 != name,
        entries[k].0 == name,
    ensures
        strmap_get(entries, name) == Some(entries[k].1),
    decreases k,
{
    if k > 0 {
        lemma_path_get_prefix(entries.skip(1), name, k - 1);
        assert(entries.skip(1)[k - 1] == entries[k]);
    }
}

proof fn lemma_path_get_none(entries: Seq<(Seq<char>, Seq<char>)>, name: Seq<char>)
    requires
        forall|j: int| 0 <= j < entries.len() ==> entries[j].0 != name,
    ensures
        strmap_get(entries, name) is None,
    decreases entries.len(),
{
    if entries.len() > 0 {
        assert forall|j: int| 0 <= j < entries.skip(1).len() implies entries.skip(1)[j].0
            != name by {
            assert(entries.skip(1)[j] == entries[j + 1]);
        }
        lemma_path_get_none(entries.skip(1), name);
    }
}

impl StrMap {
    /// A path map over the given entries.
    pub fn new(entries: Vec<StrEntry>) -> (r: StrMap)
        ensures
            r@ == strmap_view(StrMap { entries }),
    {
        StrMap { entries }
    }

    /// An empty path map.
    pub fn empty() -> (r: StrMap)
        ensures
            r@ =~= Seq::<(Seq<char>, Seq<char>)>::empty(),
    {
        StrMap { entries: Vec::new() }
    }

    /// The first text configured for `name`, if any.
    pub fn get(&self, name: &str) -> (r: Option<&String>)
        ensures
            match r {
                Some(path) => strmap_get(self@, name@) == Some(path@),
                None => strmap_get(self@, name@) is None,
            },
    {
        let mut i: usize = 0;
        while i < self.entries.len()
            invariant
                i <= self.entries@.len(),
                forall|j: int| 0 <= j < i ==> self.entries@[j].name@ != name@,
            decreases self.entries@.len() - i,
        {
            if crate::text::str_eq(self.entries[i].name.as_str(), name) {
                proof {
                    lemma_path_get_prefix(self@, name@, i as int);
                }
                return Some(&self.entries[i].path);
            }
            i += 1;
        }
        proof {
            lemma_path_get_none(self@, name@);
        }
        None
    }
}

/// How one configured field reads from a JSON payload: the metadata
/// sentinel takes the cached metadata; a configured pointer path resolves
/// and coerces (coercion failure is an error); otherwise the bare name is
/// looked up in the object and coerced; a missing field takes the schema
/// default, else fails when absence is an error, else is the absent value.
/// A field outside the schema is read as `Any` with no default.
pub open spec fn json_field_spec(
    payload: JsonS,
    name: Seq<char>,
    paths: Seq<(Seq<char>, Seq<char>)>,
    absence_err: bool,
    schema: Seq<(Seq<char>, InnerSchemaFieldS)>,
    meta: ValueS,
) -> Result<ValueS, ParseErrorS> {
    let fld = schema_seq_get(schema, name);
    let dtype = match fld {
        Some(f) => f.type_,
        None => TypeS::Any,
    };
    let dflt = match fld {
        Some(f) => f.default,
        None => None,
    };
    if name == metadata_name() {
        Ok(meta)
    } else {
        match strmap_get(paths, name) {
            Some(path) => match json_pointer_spec(payload, path) {
                Some(v) => match coerce_json(v, dtype) {
                    Some(val) => Ok(val),
                    None => Err(ParseErrorS::FailedToParseFromJson {
                        field_name: name,
                        payload: v,
                        type_: dtype,
                    }),
                },
                None => match dflt {
                    Some(d) => Ok(d),
                    None => if absence_err {
                        Err(ParseErrorS::FailedToExtractJsonField {
                            field_name: name,
                            path: Some(path),
                            payload,
                        })
                    } else {
                        Ok(ValueS::Null)
                    },
                },
            },
            None => if payload.has(name) {
                match coerce_json(payload.get(name), dtype) {
                    Some(val) => Ok(val),
                    None => Err(ParseErrorS::FailedToParseFromJson {
                        field_name: name,
                        payload: payload.get(name),
                        type_: dtype,
                    }),
                }
            } else {
                match dflt {
                    Some(d) => Ok(d),
                    None => if absence_err {
                        Err(ParseErrorS::FailedToExtractJsonField {
                            field_name: name,
                            path: None,
                            payload,
                        })
                    } else {
                        Ok(ValueS::Null)
                    },
                }
            },
        }
    }
}

/// The per-field results of reading the configured names from a payload.
pub open spec fn json_row_spec(
    payload: JsonS,
    names: Seq<Seq<char>>,
    paths: Seq<(Seq<char>, Seq<char>)>,
    absence_err: bool,
    schema: Seq<(Seq<char>, InnerSchemaFieldS)>,
    meta: ValueS,
) -> Seq<Result<ValueS, ParseErrorS>> {
    Seq::new(names.len(), |i: int| json_field_spec(payload, names[i], paths, absence_err, schema, meta))
}

/// Reads one configured field from a payload, per `json_field_spec`.
fn extract_json_field(
    payload: &JsonValue,
    name: &str,
    paths: &StrMap,
    absence_err: bool,
    schema: &Schema,
    meta: &Value,
) -> (r: FieldResult)
    ensures
        field_result_view(r) == json_field_spec(
            payload@,
            name@,
            paths@,
            absence_err,
            schema@,
            meta@,
        ),
{
    let (dtype, dflt): (Type, Option<Value>) = match schema.get(name) {
        Some(f) => (f.type_.duplicate(), match &f.default {
            Some(d) => Some(d.duplicate()),
            None => None,
        }),
        None => (Type::Any, None),
    };
    if crate::text::str_eq(name, "_metadata") {
        return Ok(meta.duplicate());
    }
    let found: Option<JsonValue> = match paths.get(name) {
        Some(path) => {
            match json_pointer(payload, path.as_str()) {
                Some(v) => Some(v),
                None => {
                    match dflt {
                        Some(d) => {
                            return Ok(d);
                        },
                        None => {
                            if absence_err {
                                return Err(ParseError::FailedToExtractJsonField {
                                    field_name: name.to_owned(),
                                    path: Some(path.clone()),
                                    payload: payload.duplicate(),
                                });
                            } else {
                                return Ok(Value::Null);
                            }
                        },
                    }
                },
            }
        },
        None => {
            let namec = str_chars(name);
            match json_get(payload, &namec) {
                Some(v) => Some(v.duplicate()),
                None => {
                    match dflt {
                        Some(d) => {
                            return Ok(d);
                        },
                        None => {
                            if absence_err {
                                return Err(ParseError::FailedToExtractJsonField {
                                    field_name: name.to_owned(),
                                    path: None,
                                    payload: payload.duplicate(),
                                });
                            } else {
                                return Ok(Value::Null);
                            }
                        },
                    }
                },
            }
        },
    };
    let v = match found {
        Some(v) => v,
        None => {
            proof {
                assert(false);
            }
            JsonValue::Null
        },
    };
    match parse_value_from_json(&v, &dtype) {
        Some(val) => Ok(val),
        None => Err(ParseError::FailedToParseFromJson {
            field_name: name.to_owned(),
            payload: v,
            type_: dtype,
        }),
    }
}

/// Reads every configured field from a payload, per `json_row_spec`.
pub fn values_by_names_from_json(
    payload: &JsonValue,
    field_names: &Vec<String>,
    column_paths: &StrMap,
    field_absence_is_error: bool,
    schema: &Schema,
    metadata_column_value: &Value,
) -> (r: crate::events::ValueFieldsWithErrors)
    ensures
        crate::events::field_results_view(r@) =~= json_row_spec(
            payload@,
            crate::errors::names_view(field_names@),
            column_paths@,
            field_absence_is_error,
            schema@,
            metadata_column_value@,
        ),
{
    let ghost namesv = crate::errors::names_view(field_names@);
    let mut out: crate::events::ValueFieldsWithErrors = Vec::new();
    let mut i: usize = 0;
    while i < field_names.len()
        invariant
            namesv == crate::errors::names_view(field_names@),
            i <= field_names@.len(),
            out@.len() == i,
            forall|k: int| 0 <= k < i ==> crate::events::field_results_view(out@)[k]
                == json_field_spec(
                payload@,
                namesv[k],
                column_paths@,
                field_absence_is_error,
                schema@,
                metadata_column_value@,
            ),
        decreases field_names@.len() - i,
    {
        proof {
            assert(namesv[i as int] == field_names@[i as int]@);
        }
        let item = extract_json_field(
            payload,
            field_names[i].as_str(),
            column_paths,
            field_absence_is_error,
            schema,
            metadata_column_value,
        );
        let ghost out0 = out@;
        out.push(item);
        proof {
            assert forall|k: int| 0 <= k < i + 1 implies crate::events::field_results_view(
                out@,
            )[k] == json_field_spec(
                payload@,
                namesv[k],
                column_paths@,
                field_absence_is_error,
                schema@,
                metadata_column_value@,
            ) by {
                assert(crate::events::field_results_view(out@)[k] == field_result_view(out@[k]));
                if k < i {
                    assert(out@[k] == out0[k]);
                    assert(crate::events::field_results_view(out0)[k] == field_result_view(
                        out0[k],
                    ));
                } else {
                    assert(out@[k] == item);
                }
            }
        }
        i += 1;
    }
    out
}

} // verus!
