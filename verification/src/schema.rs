//! The schema descriptor and the shared token-coercion policy.

use vstd::prelude::*;
use crate::errors::{ConversionError, ParseError, ParseErrorS, names_view};
use crate::jsonio::{float_of, json_of, parse_json, parse_float_repr};
use crate::num::parsed_i64;
use crate::text::{chars_eq_str, is_space_char, lower_chars, lower_text, str_chars, trim_chars,
    trim_spec};
use crate::value::{FloatRepr, Type, TypeS, Value, ValueS};

verus! {

/// The schema-declared shape of one field: its type and, optionally, a
/// default substituted when the source supplies no value (and, for
/// delimited sources, when the raw token is empty and the unoptionalized
/// type is neither `Any` nor `String`).
#[derive(Debug, PartialEq, Eq)]
pub struct InnerSchemaField {
    pub type_: Type,
    pub default: Option<Value>,
}

/// The model of an `InnerSchemaField`.
#[verifier::ext_equal]
pub struct InnerSchemaFieldS {
    pub type_: TypeS,
    pub default: Option<ValueS>,
}

impl View for InnerSchemaField {
    type V = InnerSchemaFieldS;

    open spec fn view(&self) -> InnerSchemaFieldS {
        InnerSchemaFieldS {
            type_: self.type_@,
            default: match self.default {
                Some(ref d) => Some(d@),
                None => None,
            },
        }
    }
}

impl InnerSchemaField {
    /// Builds the schema field.
    pub fn new(type_: Type, default: Option<Value>) -> (r: InnerSchemaField)
        ensures
            r@.type_ == type_@,
            r@.default == match default {
                Some(d) => Some(d@),
                None => None::<ValueS>,
            },
    {
        InnerSchemaField { type_, default }
    }

    /// A copy with the same model.
    pub fn duplicate(&self) -> (r: InnerSchemaField)
        ensures
            r@ == self@,
    {
        InnerSchemaField {
            type_: self.type_.duplicate(),
            default: match &self.default {
                Some(d) => Some(d.duplicate()),
                None => None,
            },
        }
    }

    /// What `maybe_use_default` yields: the supplied value if there is one,
    /// the default when none was supplied, and `NoDefault` when neither
    /// exists. A transport-side conversion failure is surfaced as an error.
    pub open spec fn maybe_use_default_spec(
        self_v: InnerSchemaFieldS,
        name: Seq<char>,
        value: Option<Result<ValueS, Seq<char>>>,
    ) -> Result<ValueS, ParseErrorS> {
        match value {
            Some(Ok(v)) => Ok(v),
            Some(Err(m)) => Err(ParseErrorS::ConversionFailed(m)),
            None => match self_v.default {
                Some(d) => Ok(d),
                None => Err(ParseErrorS::NoDefault { field_name: name }),
            },
        }
    }

    /// The supplied value, or this field's default when none was supplied.
    pub fn maybe_use_default(&self, name: &str, value: Option<Result<Value, ConversionError>>)
        -> (r: Result<Value, ParseError>)
        ensures
            crate::events::field_result_view(r) == Self::maybe_use_default_spec(
                self@,
                name@,
                match value {
                    Some(Ok(v)) => Some(Ok(v@)),
                    Some(Err(e)) => Some(Err(e@)),
                    None => None::<Result<ValueS, Seq<char>>>,
                },
            ),
    {
        match value {
            Some(Ok(v)) => Ok(v),
            Some(Err(e)) => Err(ParseError::ConversionFailed(e.message)),
            None => match &self.default {
                Some(d) => Ok(d.duplicate()),
                None => Err(ParseError::NoDefault { field_name: name.to_owned() }),
            },
        }
    }
}

/// One named field of a schema.
#[derive(Debug, PartialEq, Eq)]
pub struct SchemaEntry {
    pub name: String,
    pub field: InnerSchemaField,
}

/// A mapping from field name to schema field. Lookup takes the first entry
/// with the sought name.
#[derive(Debug, PartialEq, Eq)]
pub struct Schema {
    pub entries: Vec<SchemaEntry>,
}

/// The model of a `Schema`: name/field pairs in order.
pub open spec fn schema_view(s: Schema) -> Seq<(Seq<char>, InnerSchemaFieldS)> {
    s.entries@.map_values(|e: SchemaEntry| (e.name@, e.field@))
}

impl View for Schema {
    type V = Seq<(Seq<char>, InnerSchemaFieldS)>;

    open spec fn view(&self) -> Seq<(Seq<char>, InnerSchemaFieldS)> {
        schema_view(*self)
    }
}

/// The first field named `name` among `entries`, if any.
pub open spec fn schema_seq_get(
    entries: Seq<(Seq<char>, InnerSchemaFieldS)>,
    name: Seq<char>,
) -> Option<InnerSchemaFieldS>
    decreases entries.len(),
{
    if entries.len() == 0 {
        None
    } else if entries[0].0 == name {
        Some(entries[0].1)
    } else {
        schema_seq_get(entries.skip(1), name)
    }
}

/// Whether some entry is named `name`.
pub open spec fn schema_contains(
    entries: Seq<(Seq<char>, InnerSchemaFieldS)>,
    name: Seq<char>,
) -> bool {
    schema_seq_get(entries, name) is Some
}

/// `schema_seq_get` finds an entry exactly when one carries the name.
pub proof fn lemma_schema_get_some(entries: Seq<(Seq<char>, InnerSchemaFieldS)>, name: Seq<char>)
    ensures
        schema_contains(entries, name) <==> exists|i: int|
            0 <= i < entries.len() && entries[i].0 == name,
    decreases entries.len(),
{
    if entries.len() > 0 {
        lemma_schema_get_some(entries.skip(1), name);
        if entries[0].0 != name {
            assert forall|i: int| 0 <= i < entries.len() && entries[i].0 == name implies
                schema_contains(entries, name) by {
                assert(entries.skip(1)[i - 1] == entries[i]);
            }
            if schema_contains(entries.skip(1), name) {
                let i = choose|i: int|
                    0 <= i < entries.skip(1).len() && entries.skip(1)[i].0 == name;
                assert(entries[i + 1].0 == name);
            }
        }
    }
}

impl Schema {
    /// A schema over the given entries.
    pub fn new(entries: Vec<SchemaEntry>) -> (r: Schema)
        ensures
            r@ == schema_view(Schema { entries }),
    {
        Schema { entries }
    }

    /// The first field named `name`, if any.
    pub fn get(&self, name: &str) -> (r: Option<&InnerSchemaField>)
        ensures
            match r {
                Some(f) => schema_seq_get(self@, name@) == Some(f@),
                None => schema_seq_get(self@, name@) is None,
            },
    {
        let mut i: usize = 0;
        while i < self.entries.len()
            invariant
                i <= self.entries@.len(),
                forall|j: int| 0 <= j < i ==> self.entries@[j].name@ != name@,
            decreases self.entries@.len() - i,
        {
            if crate::text::str_eq(self.entries[i].name.as_str(), name) {
                proof {
                    lemma_schema_get_prefix(self@, name@, i as int);
                }
                return Some(&self.entries[i].field);
            }
            i += 1;
        }
        proof {
            lemma_schema_get_none(self@, name@);
        }
        None
    }

    /// Whether some entry is named `name`.
    pub fn contains(&self, name: &str) -> (r: bool)
        ensures
            r == schema_contains(self@, name@),
    {
        match self.get(name) {
            Some(_) => true,
            None => false,
        }
    }

    /// The names of the entries, in order.
    pub fn keys(&self) -> (r: Vec<String>)
        ensures
            names_view(r@) =~= self@.map_values(|e: (Seq<char>, InnerSchemaFieldS)| e.0),
    {
        let mut out: Vec<String> = Vec::new();
        let mut i: usize = 0;
        while i < self.entries.len()
            invariant
                i <= self.entries@.len(),
                out@.len() == i,
                forall|j: int| 0 <= j < i ==> (#[trigger] out@[j])@ == self.entries@[j].name@,
            decreases self.entries@.len() - i,
        {
            out.push(self.entries[i].name.clone());
            i += 1;
        }
        out
    }
}

/// When the first `k` entries miss the name and entry `k` carries it, the
/// lookup lands on entry `k`.
proof fn lemma_schema_get_prefix(
    entries: Seq<(Seq<char>, InnerSchemaFieldS)>,
    name: Seq<char>,
    k: int,
)
    requires
        0 <= k < entries.len(),
        forall|j: int| 0 <= j < k ==> entries[j].0 != name,
        entries[k].0 == name,
    ensures
        schema_seq_get(entries, name) == Some(entries[k].1),
    decreases k,
{
    if k > 0 {
        lemma_schema_get_prefix(entries.skip(1), name, k - 1);
        assert(entries.skip(1)[k - 1] == entries[k]);
    }
}

/// When no entry carries the name, the lookup finds nothing.
proof fn lemma_schema_get_none(entries: Seq<(Seq<char>, InnerSchemaFieldS)>, name: Seq<char>)
    requires
        forall|j: int| 0 <= j < entries.len() ==> entries[j].0 != name,
    ensures
        schema_seq_get(entries, name) is None,
    decreases entries.len(),
{
    if entries.len() > 0 {
        assert forall|j: int| 0 <= j < entries.skip(1).len() implies entries.skip(1)[j].0
            != name by {
            assert(entries.skip(1)[j] == entries[j + 1]);
        }
        lemma_schema_get_none(entries.skip(1), name);
    }
}

/// Whether every one of `names` appears in the schema.
pub open spec fn names_all_in_schema(
    names: Seq<Seq<char>>,
    schema: Seq<(Seq<char>, InnerSchemaFieldS)>,
) -> bool {
    forall|i: int| 0 <= i < names.len() ==> schema_contains(schema, names[i])
}

/// Whether every name among the configured key and value columns appears in
/// the schema.
pub open spec fn all_fields_in_schema(
    key_column_names: Option<Seq<Seq<char>>>,
    value_column_names: Seq<Seq<char>>,
    schema: Seq<(Seq<char>, InnerSchemaFieldS)>,
) -> bool {
    &&& match key_column_names {
        Some(keys) => names_all_in_schema(keys, schema),
        None => true,
    }
    &&& names_all_in_schema(value_column_names, schema)
}

/// The model of optional column names.
pub open spec fn opt_names_view(v: Option<Vec<String>>) -> Option<Seq<Seq<char>>> {
    match v {
        Some(names) => Some(names_view(names@)),
        None => None,
    }
}

/// Checks that every configured key and value column name appears in the
/// schema; the first missing name is reported with the schema's keys.
pub fn ensure_all_fields_in_schema(
    key_column_names: &Option<Vec<String>>,
    value_column_names: &Vec<String>,
    schema: &Schema,
) -> (r: Result<(), ParseError>)
    ensures
        r is Ok <==> all_fields_in_schema(
            opt_names_view(*key_column_names),
            names_view(value_column_names@),
            schema@,
        ),
        r matches Err(e) ==> (e@ matches ParseErrorS::FieldNotInSchema { name, schema_keys }
            && !schema_contains(schema@, name) && schema_keys == schema@.map_values(
            |p: (Seq<char>, InnerSchemaFieldS)| p.0,
        )),
{
    if let Some(keys) = key_column_names {
        let mut i: usize = 0;
        while i < keys.len()
            invariant
                *key_column_names == Some(*keys),
                i <= keys@.len(),
                forall|j: int| 0 <= j < i ==> schema_contains(schema@, names_view(keys@)[j]),
            decreases keys@.len() - i,
        {
            if !schema.contains(keys[i].as_str()) {
                proof {
                    assert(names_view(keys@)[i as int] == keys@[i as int]@);
                    assert(!names_all_in_schema(names_view(keys@), schema@));
                }
                return Err(ParseError::FieldNotInSchema {
                    name: keys[i].clone(),
                    schema_keys: schema.keys(),
                });
            }
            i += 1;
        }
    }
    let mut i: usize = 0;
    while i < value_column_names.len()
        invariant
            i <= value_column_names@.len(),
            match *key_column_names {
                Some(ref keys) => forall|j: int| 0 <= j < keys@.len() ==> schema_contains(
                    schema@,
                    names_view(keys@)[j],
                ),
                None => true,
            },
            forall|j: int| 0 <= j < i ==> schema_contains(
                schema@,
                names_view(value_column_names@)[j],
            ),
        decreases value_column_names@.len() - i,
    {
        if !schema.contains(value_column_names[i].as_str()) {
            proof {
                assert(names_view(value_column_names@)[i as int] == value_column_names@[i as int]@);
                assert(!names_all_in_schema(names_view(value_column_names@), schema@));
            }
            return Err(ParseError::FieldNotInSchema {
                name: value_column_names[i].clone(),
                schema_keys: schema.keys(),
            });
        }
        i += 1;
    }
    Ok(())
}

/// The boolean vocabulary: after trimming and ASCII lower-casing, the
/// tokens `true`, `yes`, `on`, `1`, `t`, `y` denote true and `false`, `no`,
/// `off`, `0`, `f`, `n` denote false; everything else is no boolean.
pub open spec fn bool_token(s: Seq<char>) -> Option<bool> {
    let t = lower_text(trim_spec(s));
    if t == "true"@ || t == "yes"@ || t == "on"@ || t == "1"@ || t == "t"@ || t == "y"@ {
        Some(true)
    } else if t == "false"@ || t == "no"@ || t == "off"@ || t == "0"@ || t == "f"@ || t == "n"@ {
        Some(false)
    } else {
        None
    }
}

/// Reads a boolean from its tolerant textual forms, per `bool_token`.
pub fn parse_bool_advanced(raw_value: &str) -> (r: Option<bool>)
    ensures
        r == bool_token(raw_value@),
{
    let chars = str_chars(raw_value);
    let trimmed = trim_chars(&chars);
    let lowered = lower_chars(&trimmed);
    if chars_eq_str(&lowered, "true") || chars_eq_str(&lowered, "yes") || chars_eq_str(
        &lowered,
        "on",
    ) || chars_eq_str(&lowered, "1") || chars_eq_str(&lowered, "t") || chars_eq_str(&lowered, "y") {
        Some(true)
    } else if chars_eq_str(&lowered, "false") || chars_eq_str(&lowered, "no") || chars_eq_str(
        &lowered,
        "off",
    ) || chars_eq_str(&lowered, "0") || chars_eq_str(&lowered, "f") || chars_eq_str(
        &lowered,
        "n",
    ) {
        Some(false)
    } else {
        None
    }
}

/// The stable message carried by a boolean coercion failure.
pub open spec fn bool_error_text() -> Seq<char> {
    "provided string was not parsable as a boolean value"@
}

/// The stable message carried by an integer coercion failure.
pub open spec fn int_error_text() -> Seq<char> {
    "provided string was not parsable as an integer"@
}

/// The stable message carried by a floating-point coercion failure.
pub open spec fn float_error_text() -> Seq<char> {
    "provided string was not parsable as a floating-point number"@
}

/// The stable message carried by a JSON coercion failure.
pub open spec fn json_error_text() -> Seq<char> {
    "provided string was not parsable as json"@
}

/// The shared coercion policy for one raw token under one schema field:
/// an empty token with a default and a non-`Any`/`String` type yields the
/// default; `Any` and `String` take the token verbatim (so an empty string
/// cell never falls back to the default); `Bool`, `Int`, `Float` and `Json`
/// coerce, failing with `SchemaNotSatisfied`; all other types cannot be
/// read from a raw token and fail with `UnparsableType`.
pub open spec fn parse_with_type_spec(
    raw: Seq<char>,
    f: InnerSchemaFieldS,
    name: Seq<char>,
) -> Result<ValueS, ParseErrorS> {
    if f.default is Some && raw.len() == 0 && !(f.type_.unopt() is Any || f.type_.unopt()
        is Str) {
        Ok(f.default->Some_0)
    } else {
        match f.type_.unopt() {
            TypeS::Any => Ok(ValueS::Str(raw)),
            TypeS::Str => Ok(ValueS::Str(raw)),
            TypeS::Bool => match bool_token(raw) {
                Some(b) => Ok(ValueS::Bool(b)),
                None => Err(ParseErrorS::SchemaNotSatisfied {
                    value: raw,
                    field_name: name,
                    type_: f.type_,
                    error: bool_error_text(),
                }),
            },
            TypeS::Int => match parsed_i64(raw) {
                Some(i) => Ok(ValueS::Int(i)),
                None => Err(ParseErrorS::SchemaNotSatisfied {
                    value: raw,
                    field_name: name,
                    type_: f.type_,
                    error: int_error_text(),
                }),
            },
            TypeS::Float => match float_of(raw) {
                Some(t) => Ok(ValueS::Float(t)),
                None => Err(ParseErrorS::SchemaNotSatisfied {
                    value: raw,
                    field_name: name,
                    type_: f.type_,
                    error: float_error_text(),
                }),
            },
            TypeS::Json => match json_of(raw) {
                Some(j) => Ok(ValueS::Json(j)),
                None => Err(ParseErrorS::SchemaNotSatisfied {
                    value: raw,
                    field_name: name,
                    type_: f.type_,
                    error: json_error_text(),
                }),
            },
            _ => Err(ParseErrorS::UnparsableType(f.type_)),
        }
    }
}

/// Coerces one raw token under one schema field, per `parse_with_type_spec`.
pub fn parse_with_type(raw_value: &str, schema: &InnerSchemaField, field_name: &str) -> (r: Result<
    Value,
    ParseError,
>)
    ensures
        crate::events::field_result_view(r) == parse_with_type_spec(
            raw_value@,
            schema@,
            field_name@,
        ),
{
    let unopt = schema.type_.unoptionalize();
    let is_any_or_string = match unopt {
        Type::Any => true,
        Type::String => true,
        _ => false,
    };
    if schema.default.is_some() && raw_value.is_empty() && !is_any_or_string {
        match &schema.default {
            Some(d) => {
                return Ok(d.duplicate());
            },
            None => {
                proof {
                    assert(false);
                }
            },
        }
    }
    match unopt {
        Type::Any => Ok(Value::String(raw_value.to_owned())),
        Type::String => Ok(Value::String(raw_value.to_owned())),
        Type::Bool => match parse_bool_advanced(raw_value) {
            Some(b) => Ok(Value::Bool(b)),
            None => Err(ParseError::SchemaNotSatisfied {
                value: raw_value.to_owned(),
                field_name: field_name.to_owned(),
                type_: schema.type_.duplicate(),
                error: String::from_str("provided string was not parsable as a boolean value"),
            }),
        },
        Type::Int => {
            let chars = str_chars(raw_value);
            match crate::num::parse_i64_chars(&chars) {
                Some(i) => Ok(Value::Int(i)),
                None => Err(ParseError::SchemaNotSatisfied {
                    value: raw_value.to_owned(),
                    field_name: field_name.to_owned(),
                    type_: schema.type_.duplicate(),
                    error: String::from_str("provided string was not parsable as an integer"),
                }),
            }
        },
        Type::Float => match parse_float_repr(raw_value) {
            Some(t) => Ok(Value::Float(FloatRepr { text: t })),
            None => Err(ParseError::SchemaNotSatisfied {
                value: raw_value.to_owned(),
                field_name: field_name.to_owned(),
                type_: schema.type_.duplicate(),
                error: String::from_str(
                    "provided string was not parsable as a floating-point number",
                ),
            }),
        },
        Type::Json => match parse_json(raw_value) {
            Some(j) => Ok(Value::Json(j)),
            None => Err(ParseError::SchemaNotSatisfied {
                value: raw_value.to_owned(),
                field_name: field_name.to_owned(),
                type_: schema.type_.duplicate(),
                error: String::from_str("provided string was not parsable as json"),
            }),
        },
        _ => Err(ParseError::UnparsableType(schema.type_.duplicate())),
    }
}

/// The delimited round trip at cell level: rendering a string, integer or
/// boolean value in its canonical display form and coercing the text back
/// under a schema field of the matching type yields the value again.
/// Floating-point and JSON cells pass through trusted renderings whose
/// inverse is not modelled, and a rendered string holding the separator or
/// outer whitespace would be re-tokenized or trimmed at the row level, so
/// this is the exact cell-level statement.
pub proof fn lemma_delimited_cell_round_trip(v: ValueS, f: InnerSchemaFieldS, name: Seq<char>)
    requires
        (v is Str && f.type_.unopt() is Str) || (v is Int && f.type_.unopt() is Int) || (v is Bool
            && f.type_.unopt() is Bool),
    ensures
        parse_with_type_spec(crate::jsontext::display_text(v), f, name) == Ok::<
            ValueS,
            ParseErrorS,
        >(v),
{
    match v {
        ValueS::Str(t) => {
        },
        ValueS::Int(i) => {
            let raw = crate::num::int_text(i as int);
            crate::num::lemma_int_text_round_trip(i);
            if i >= 0 {
                crate::num::lemma_dec_text_props(i as nat);
            } else {
                crate::num::lemma_dec_text_props((-(i as int)) as nat);
            }
            assert(raw.len() >= 1);
        },
        ValueS::Bool(b) => {
            reveal_strlit("true");
            reveal_strlit("false");
            reveal_strlit("yes");
            reveal_strlit("on");
            reveal_strlit("1");
            reveal_strlit("t");
            reveal_strlit("y");
            reveal_strlit("no");
            reveal_strlit("off");
            reveal_strlit("0");
            reveal_strlit("f");
            reveal_strlit("n");
            let raw: Seq<char> = if b {
                "true"@
            } else {
                "false"@
            };
            assert(!is_space_char(raw[0]));
            assert(!is_space_char(raw.last()));
            assert(trim_spec(raw) == raw) by {
                assert(crate::text::trim_front_spec(raw) == raw);
                assert(crate::text::trim_back_spec(raw) == raw);
            }
            assert(lower_text(raw) =~= raw) by {
                assert forall|k: int| 0 <= k < raw.len() implies lower_text(raw)[k] == raw[k] by {
                    assert(crate::text::lower_char(raw[k]) == raw[k]);
                }
            }
            if b {
                assert(bool_token(raw) == Some(true));
            } else {
                assert(bool_token(raw) == Some(false));
            }
        },
        _ => {
        },
    }
}

} // verus!
