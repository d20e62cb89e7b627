//! The value and type algebra shared by every parser and formatter, together
//! with the mathematical models (`ValueS`, `TypeS`, `JsonS`) that every
//! contract in the crate is stated over.

use vstd::prelude::*;

verus! {

/// An opaque, hashable 128-bit identifier for a logical row.
#[derive(Clone, Copy, Debug, PartialEq, Eq, Hash, Structural)]
pub struct Key {
    pub id: u128,
}

/// The canonical text of an IEEE-754 double. Floating-point values never
/// appear in the library directly; they are carried as the rendering that
/// the JSON serializer gives them, which is produced and consumed only by
/// trusted wrappers and by tests.
#[derive(Clone, Debug, PartialEq, Eq)]
pub struct FloatRepr {
    pub text: String,
}

impl View for FloatRepr {
    type V = Seq<char>;

    open spec fn view(&self) -> Seq<char> {
        self.text@
    }
}

/// A JSON number. `as_int` is the value when the number is an integer
/// representable in an `i64`; `float_repr` is the canonical rendering of the
/// number read as a double, when it is so representable; `repr` is the
/// canonical rendering of the number itself, spliced verbatim when a JSON
/// tree is serialized.
#[derive(Clone, Debug, PartialEq, Eq)]
pub struct JsonNumber {
    pub as_int: Option<i64>,
    pub float_repr: Option<String>,
    pub repr: String,
}

/// The model of a JSON number.
#[verifier::ext_equal]
pub struct JsonNumS {
    pub as_int: Option<i64>,
    pub float_repr: Option<Seq<char>>,
    pub repr: Seq<char>,
}

impl View for JsonNumber {
    type V = JsonNumS;

    open spec fn view(&self) -> JsonNumS {
        JsonNumS {
            as_int: self.as_int,
            float_repr: match self.float_repr {
                Some(ref s) => Some(s@),
                None => None,
            },
            repr: self.repr@,
        }
    }
}

/// One named member of a JSON object.
#[derive(Debug, PartialEq, Eq)]
pub struct JsonEntry {
    pub name: String,
    pub value: JsonValue,
}

/// A JSON tree. Object entries keep the order in which they were produced;
/// lookup takes the first entry with the sought name.
#[derive(Debug, PartialEq, Eq)]
pub enum JsonValue {
    Null,
    Bool(bool),
    Number(JsonNumber),
    Str(String),
    Array(Vec<JsonValue>),
    Object(Vec<JsonEntry>),
}

/// The model of a JSON tree: object entries are name/value pairs in order.
#[verifier::ext_equal]
pub enum JsonS {
    Null,
    Bool(bool),
    Number(JsonNumS),
    Str(Seq<char>),
    Array(Seq<JsonS>),
    Object(Seq<(Seq<char>, JsonS)>),
}

/// The model of a `JsonValue`.
pub open spec fn json_view(v: JsonValue) -> JsonS
    decreases v,
{
    match v {
        JsonValue::Null => JsonS::Null,
        JsonValue::Bool(b) => JsonS::Bool(b),
        JsonValue::Number(n) => JsonS::Number(n@),
        JsonValue::Str(s) => JsonS::Str(s@),
        JsonValue::Array(items) => JsonS::Array(json_view_seq(items@)),
        JsonValue::Object(entries) => JsonS::Object(json_entries_view(entries@)),
    }
}

/// The models of a sequence of JSON trees, in order.
pub open spec fn json_view_seq(items: Seq<JsonValue>) -> Seq<JsonS>
    decreases items,
{
    if items.len() == 0 {
        Seq::empty()
    } else {
        seq![json_view(items.first())] + json_view_seq(items.drop_first())
    }
}

/// The models of a sequence of object entries, in order.
pub open spec fn json_entries_view(entries: Seq<JsonEntry>) -> Seq<(Seq<char>, JsonS)>
    decreases entries,
{
    if entries.len() == 0 {
        Seq::empty()
    } else {
        seq![(entries.first().name@, json_view(entries.first().value))]
            + json_entries_view(entries.drop_first())
    }
}

/// How `json_view_seq` relates to its elements.
pub broadcast proof fn lemma_json_view_seq(items: Seq<JsonValue>)
    ensures
        #[trigger] json_view_seq(items).len() == items.len(),
        forall|i: int| 0 <= i < items.len() ==> json_view_seq(items)[i] == json_view(items[i]),
    decreases items.len(),
{
    if items.len() > 0 {
        lemma_json_view_seq(items.drop_first());
    }
}

/// How `json_entries_view` relates to its elements.
pub broadcast proof fn lemma_json_entries_view(entries: Seq<JsonEntry>)
    ensures
        #[trigger] json_entries_view(entries).len() == entries.len(),
        forall|i: int| 0 <= i < entries.len() ==> json_entries_view(entries)[i]
            == (entries[i].name@, json_view(entries[i].value)),
    decreases entries.len(),
{
    if entries.len() > 0 {
        lemma_json_entries_view(entries.drop_first());
    }
}

impl View for JsonValue {
    type V = JsonS;

    open spec fn view(&self) -> JsonS {
        json_view(*self)
    }
}

impl JsonS {
    /// The first entry of `entries` whose name is `name`, or `Null`.
    pub open spec fn seq_get(entries: Seq<(Seq<char>, JsonS)>, name: Seq<char>) -> JsonS
        decreases entries.len(),
    {
        if entries.len() == 0 {
            JsonS::Null
        } else if entries[0].0 == name {
            entries[0].1
        } else {
            Self::seq_get(entries.skip(1), name)
        }
    }

    /// The first entry named `name`, or `Null` when `self` is not an object
    /// or has no such entry. This mirrors indexing a JSON object by string.
    pub open spec fn get(self, name: Seq<char>) -> JsonS {
        match self {
            JsonS::Object(entries) => Self::seq_get(entries, name),
            _ => JsonS::Null,
        }
    }

    /// Whether `self` is an object with an entry named `name`.
    pub open spec fn has(self, name: Seq<char>) -> bool {
        match self {
            JsonS::Object(entries) => exists|i: int|
                0 <= i < entries.len() && entries[i].0 == name,
            _ => false,
        }
    }
}

/// A single field value.
#[derive(Debug, PartialEq, Eq)]
pub enum Value {
    /// The absent value (`null` in JSON sources).
    Null,
    Int(i64),
    Float(FloatRepr),
    Bool(bool),
    String(String),
    Bytes(Vec<u8>),
    Pointer(Key),
    Tuple(Vec<Value>),
    List(Vec<Value>),
    IntArray(Vec<i64>),
    FloatArray(Vec<FloatRepr>),
    DateTimeNaive(i64),
    DateTimeUtc(i64),
    Duration(i64),
    Json(JsonValue),
    Error,
    PyObjectWrapper,
}

/// The model of a `Value`.
#[verifier::ext_equal]
pub enum ValueS {
    Null,
    Int(i64),
    Float(Seq<char>),
    Bool(bool),
    Str(Seq<char>),
    Bytes(Seq<u8>),
    Pointer(u128),
    Tuple(Seq<ValueS>),
    List(Seq<ValueS>),
    IntArray(Seq<i64>),
    FloatArray(Seq<Seq<char>>),
    DateTimeNaive(i64),
    DateTimeUtc(i64),
    Duration(i64),
    Json(JsonS),
    Error,
    PyObjectWrapper,
}

/// The model of a `Value`.
pub open spec fn value_view(v: Value) -> ValueS
    decreases v,
{
    match v {
        Value::Null => ValueS::Null,
        Value::Int(i) => ValueS::Int(i),
        Value::Float(f) => ValueS::Float(f@),
        Value::Bool(b) => ValueS::Bool(b),
        Value::String(s) => ValueS::Str(s@),
        Value::Bytes(b) => ValueS::Bytes(b@),
        Value::Pointer(k) => ValueS::Pointer(k.id),
        Value::Tuple(items) => ValueS::Tuple(value_view_seq(items@)),
        Value::List(items) => ValueS::List(value_view_seq(items@)),
        Value::IntArray(a) => ValueS::IntArray(a@),
        Value::FloatArray(a) => ValueS::FloatArray(Seq::new(a@.len(), |i: int| a@[i]@)),
        Value::DateTimeNaive(t) => ValueS::DateTimeNaive(t),
        Value::DateTimeUtc(t) => ValueS::DateTimeUtc(t),
        Value::Duration(d) => ValueS::Duration(d),
        Value::Json(j) => ValueS::Json(j@),
        Value::Error => ValueS::Error,
        Value::PyObjectWrapper => ValueS::PyObjectWrapper,
    }
}

/// The models of a sequence of values, in order.
pub open spec fn value_view_seq(items: Seq<Value>) -> Seq<ValueS>
    decreases items,
{
    if items.len() == 0 {
        Seq::empty()
    } else {
        seq![value_view(items.first())] + value_view_seq(items.drop_first())
    }
}

/// How `value_view_seq` relates to its elements.
pub broadcast proof fn lemma_value_view_seq(items: Seq<Value>)
    ensures
        #[trigger] value_view_seq(items).len() == items.len(),
        forall|i: int| 0 <= i < items.len() ==> value_view_seq(items)[i] == value_view(items[i]),
    decreases items.len(),
{
    if items.len() > 0 {
        lemma_value_view_seq(items.drop_first());
    }
}

impl View for Value {
    type V = ValueS;

    open spec fn view(&self) -> ValueS {
        value_view(*self)
    }
}

/// The schema-declared expected type of a field.
#[derive(Debug, PartialEq, Eq)]
pub enum Type {
    Any,
    Bool,
    Int,
    Float,
    String,
    Bytes,
    Pointer,
    DateTimeNaive,
    DateTimeUtc,
    Duration,
    Json,
    Tuple(Vec<Type>),
    List(Box<Type>),
    IntArray,
    FloatArray,
    PyObjectWrapper,
    Optional(Box<Type>),
}

/// The model of a `Type`.
#[verifier::ext_equal]
pub enum TypeS {
    Any,
    Bool,
    Int,
    Float,
    Str,
    Bytes,
    Pointer,
    DateTimeNaive,
    DateTimeUtc,
    Duration,
    Json,
    Tuple(Seq<TypeS>),
    List(Box<TypeS>),
    IntArray,
    FloatArray,
    PyObjectWrapper,
    Optional(Box<TypeS>),
}

/// The model of a `Type`.
pub open spec fn type_view(t: Type) -> TypeS
    decreases t,
{
    match t {
        Type::Any => TypeS::Any,
        Type::Bool => TypeS::Bool,
        Type::Int => TypeS::Int,
        Type::Float => TypeS::Float,
        Type::String => TypeS::Str,
        Type::Bytes => TypeS::Bytes,
        Type::Pointer => TypeS::Pointer,
        Type::DateTimeNaive => TypeS::DateTimeNaive,
        Type::DateTimeUtc => TypeS::DateTimeUtc,
        Type::Duration => TypeS::Duration,
        Type::Json => TypeS::Json,
        Type::Tuple(items) => TypeS::Tuple(type_view_seq(items@)),
        Type::List(t1) => TypeS::List(Box::new(type_view(*t1))),
        Type::IntArray => TypeS::IntArray,
        Type::FloatArray => TypeS::FloatArray,
        Type::PyObjectWrapper => TypeS::PyObjectWrapper,
        Type::Optional(t1) => TypeS::Optional(Box::new(type_view(*t1))),
    }
}

/// The models of a sequence of types, in order.
pub open spec fn type_view_seq(items: Seq<Type>) -> Seq<TypeS>
    decreases items,
{
    if items.len() == 0 {
        Seq::empty()
    } else {
        seq![type_view(items.first())] + type_view_seq(items.drop_first())
    }
}

/// How `type_view_seq` relates to its elements.
pub broadcast proof fn lemma_type_view_seq(items: Seq<Type>)
    ensures
        #[trigger] type_view_seq(items).len() == items.len(),
        forall|i: int| 0 <= i < items.len() ==> type_view_seq(items)[i] == type_view(items[i]),
    decreases items.len(),
{
    if items.len() > 0 {
        lemma_type_view_seq(items.drop_first());
    }
}

impl View for Type {
    type V = TypeS;

    open spec fn view(&self) -> TypeS {
        type_view(*self)
    }
}

impl TypeS {
    /// One `Optional` layer stripped.
    pub open spec fn unopt(self) -> TypeS {
        match self {
            TypeS::Optional(t) => *t,
            t => t,
        }
    }
}

impl Type {
    /// Strips one `Optional` layer.
    pub fn unoptionalize(&self) -> (r: &Type)
        ensures
            r@ == self@.unopt(),
    {
        match self {
            Type::Optional(t) => &**t,
            t => t,
        }
    }
}

impl FloatRepr {
    /// A copy with the same model.
    pub fn duplicate(&self) -> (r: FloatRepr)
        ensures
            r@ == self@,
    {
        FloatRepr { text: self.text.clone() }
    }
}

impl JsonNumber {
    /// A copy with the same model.
    pub fn duplicate(&self) -> (r: JsonNumber)
        ensures
            r@ == self@,
    {
        JsonNumber {
            as_int: self.as_int,
            float_repr: match &self.float_repr {
                Some(s) => Some(s.clone()),
                None => None,
            },
            repr: self.repr.clone(),
        }
    }
}

impl JsonValue {
    /// A deep copy with the same model. Recursive types cannot rely on a
    /// derived `Clone`, so copying is spelled out and proved.
    pub fn duplicate(&self) -> (r: JsonValue)
        ensures
            r@ == self@,
        decreases *self,
    {
        match self {
            JsonValue::Null => JsonValue::Null,
            JsonValue::Bool(b) => JsonValue::Bool(*b),
            JsonValue::Number(n) => JsonValue::Number(n.duplicate()),
            JsonValue::Str(s) => JsonValue::Str(s.clone()),
            JsonValue::Array(items) => {
                let mut out: Vec<JsonValue> = Vec::new();
                let mut i: usize = 0;
                while i < items.len()
                    invariant
                        i <= items@.len(),
                        out@.len() == i,
                        forall|j: int| 0 <= j < i ==> json_view(#[trigger] out@[j]) == json_view(
                            items@[j],
                        ),
                        *self == JsonValue::Array(*items),
                    decreases items@.len() - i,
                {
                    proof {
                        assert(decreases_to!(*self => self->Array_0));
                        assert(decreases_to!(self->Array_0 => items@[i as int]));
                    }
                    let d = items[i].duplicate();
                    out.push(d);
                    i += 1;
                }
                proof {
                    lemma_json_view_seq(out@);
                    lemma_json_view_seq(items@);
                    assert(json_view_seq(out@) =~= json_view_seq(items@));
                }
                JsonValue::Array(out)
            },
            JsonValue::Object(entries) => {
                let mut out: Vec<JsonEntry> = Vec::new();
                let mut i: usize = 0;
                while i < entries.len()
                    invariant
                        i <= entries@.len(),
                        out@.len() == i,
                        forall|j: int| 0 <= j < i ==> json_view(#[trigger] out@[j].value)
                            == json_view(entries@[j].value) && out@[j].name@ == entries@[j].name@,
                        *self == JsonValue::Object(*entries),
                    decreases entries@.len() - i,
                {
                    proof {
                        assert(decreases_to!(*self => self->Object_0));
                        assert(decreases_to!(self->Object_0 => entries@[i as int]));
                        assert(decreases_to!(entries@[i as int] => entries@[i as int].value));
                    }
                    let d = entries[i].value.duplicate();
                    out.push(JsonEntry { name: entries[i].name.clone(), value: d });
                    i += 1;
                }
                proof {
                    lemma_json_entries_view(out@);
                    lemma_json_entries_view(entries@);
                    assert(json_entries_view(out@) =~= json_entries_view(entries@));
                }
                JsonValue::Object(out)
            },
        }
    }
}

impl Value {
    /// A deep copy with the same model; see `JsonValue::duplicate`.
    pub fn duplicate(&self) -> (r: Value)
        ensures
            r@ == self@,
        decreases *self,
    {
        match self {
            Value::Null => Value::Null,
            Value::Int(i) => Value::Int(*i),
            Value::Float(f) => Value::Float(f.duplicate()),
            Value::Bool(b) => Value::Bool(*b),
            Value::String(s) => Value::String(s.clone()),
            Value::Bytes(b) => Value::Bytes(copy_u8_vec(b)),
            Value::Pointer(k) => Value::Pointer(*k),
            Value::Tuple(items) => {
                let mut out: Vec<Value> = Vec::new();
                let mut i: usize = 0;
                while i < items.len()
                    invariant
                        i <= items@.len(),
                        out@.len() == i,
                        forall|j: int| 0 <= j < i ==> value_view(#[trigger] out@[j]) == value_view(
                            items@[j],
                        ),
                        *self == Value::Tuple(*items),
                    decreases items@.len() - i,
                {
                    proof {
                        assert(decreases_to!(*self => self->Tuple_0));
                        assert(decreases_to!(self->Tuple_0 => items@[i as int]));
                    }
                    let d = items[i].duplicate();
                    out.push(d);
                    i += 1;
                }
                proof {
                    lemma_value_view_seq(out@);
                    lemma_value_view_seq(items@);
                    assert(value_view_seq(out@) =~= value_view_seq(items@));
                }
                Value::Tuple(out)
            },
            Value::List(items) => {
                let mut out: Vec<Value> = Vec::new();
                let mut i: usize = 0;
                while i < items.len()
                    invariant
                        i <= items@.len(),
                        out@.len() == i,
                        forall|j: int| 0 <= j < i ==> value_view(#[trigger] out@[j]) == value_view(
                            items@[j],
                        ),
                        *self == Value::List(*items),
                    decreases items@.len() - i,
                {
                    proof {
                        assert(decreases_to!(*self => self->List_0));
                        assert(decreases_to!(self->List_0 => items@[i as int]));
                    }
                    let d = items[i].duplicate();
                    out.push(d);
                    i += 1;
                }
                proof {
                    lemma_value_view_seq(out@);
                    lemma_value_view_seq(items@);
                    assert(value_view_seq(out@) =~= value_view_seq(items@));
                }
                Value::List(out)
            },
            Value::IntArray(a) => Value::IntArray(copy_i64_vec(a)),
            Value::FloatArray(a) => {
                let mut out: Vec<FloatRepr> = Vec::new();
                let mut i: usize = 0;
                while i < a.len()
                    invariant
                        i <= a@.len(),
                        out@.len() == i,
                        forall|j: int| 0 <= j < i ==> (#[trigger] out@[j])@ == a@[j]@,
                    decreases a@.len() - i,
                {
                    let d = a[i].duplicate();
                    out.push(d);
                    i += 1;
                }
                proof {
                    assert(Seq::new(out@.len(), |i: int| out@[i]@) =~= Seq::new(
                        a@.len(),
                        |i: int| a@[i]@,
                    ));
                }
                Value::FloatArray(out)
            },
            Value::DateTimeNaive(t) => Value::DateTimeNaive(*t),
            Value::DateTimeUtc(t) => Value::DateTimeUtc(*t),
            Value::Duration(d) => Value::Duration(*d),
            Value::Json(j) => Value::Json(j.duplicate()),
            Value::Error => Value::Error,
            Value::PyObjectWrapper => Value::PyObjectWrapper,
        }
    }
}

/// A copy of a byte vector with the same contents.
pub fn copy_u8_vec(v: &Vec<u8>) -> (r: Vec<u8>)
    ensures
        r@ == v@,
{
    let mut out: Vec<u8> = Vec::new();
    let mut i: usize = 0;
    while i < v.len()
        invariant
            i <= v@.len(),
            out@ =~= v@.subrange(0, i as int),
        decreases v@.len() - i,
    {
        out.push(v[i]);
        i += 1;
    }
    assert(out@ =~= v@);
    out
}

/// A copy of an integer vector with the same contents.
pub fn copy_i64_vec(v: &Vec<i64>) -> (r: Vec<i64>)
    ensures
        r@ == v@,
{
    let mut out: Vec<i64> = Vec::new();
    let mut i: usize = 0;
    while i < v.len()
        invariant
            i <= v@.len(),
            out@ =~= v@.subrange(0, i as int),
        decreases v@.len() - i,
    {
        out.push(v[i]);
        i += 1;
    }
    assert(out@ =~= v@);
    out
}

impl Type {
    /// A deep copy with the same model; see `JsonValue::duplicate`.
    pub fn duplicate(&self) -> (r: Type)
        ensures
            r@ == self@,
        decreases *self,
    {
        match self {
            Type::Any => Type::Any,
            Type::Bool => Type::Bool,
            Type::Int => Type::Int,
            Type::Float => Type::Float,
            Type::String => Type::String,
            Type::Bytes => Type::Bytes,
            Type::Pointer => Type::Pointer,
            Type::DateTimeNaive => Type::DateTimeNaive,
            Type::DateTimeUtc => Type::DateTimeUtc,
            Type::Duration => Type::Duration,
            Type::Json => Type::Json,
            Type::Tuple(items) => {
                let mut out: Vec<Type> = Vec::new();
                let mut i: usize = 0;
                while i < items.len()
                    invariant
                        i <= items@.len(),
                        out@.len() == i,
                        forall|j: int| 0 <= j < i ==> type_view(#[trigger] out@[j]) == type_view(
                            items@[j],
                        ),
                        *self == Type::Tuple(*items),
                    decreases items@.len() - i,
                {
                    proof {
                        assert(decreases_to!(*self => self->Tuple_0));
                        assert(decreases_to!(self->Tuple_0 => items@[i as int]));
                    }
                    let d = items[i].duplicate();
                    out.push(d);
                    i += 1;
                }
                proof {
                    lemma_type_view_seq(out@);
                    lemma_type_view_seq(items@);
                    assert(type_view_seq(out@) =~= type_view_seq(items@));
                }
                Type::Tuple(out)
            },
            Type::List(t) => {
                proof {
                    assert(decreases_to!(*self => self->List_0));
                }
                Type::List(Box::new((**t).duplicate()))
            },
            Type::IntArray => Type::IntArray,
            Type::FloatArray => Type::FloatArray,
            Type::PyObjectWrapper => Type::PyObjectWrapper,
            Type::Optional(t) => {
                proof {
                    assert(decreases_to!(*self => self->Optional_0));
                }
                Type::Optional(Box::new((**t).duplicate()))
            },
        }
    }
}

} // verus!
