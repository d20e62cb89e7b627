//! The transparent parser: already-typed rows pass through, adjusted only
//! against the schema.

use vstd::prelude::*;
use crate::codec::Parser;
use crate::errors::{names_view, ParseError, ParseErrorS};
use crate::events::{
    events_view, DataEventType, DiffValues, DiffValuesS, EventWithErrorsS, FieldResult,
    ParsedEventWithErrors, ReaderContext, ReaderContextS, SessionType, field_result_view,
    field_results_view,
};
use crate::schema::{
    all_fields_in_schema, ensure_all_fields_in_schema, opt_names_view, schema_seq_get,
    InnerSchemaField, InnerSchemaFieldS, Schema,
};
use crate::value::{JsonValue, Value, ValueS, value_view_seq};

verus! {

/// The model of a `TransparentParser`.
#[verifier::ext_equal]
pub struct TransparentParserS {
    pub key_field_names: Option<Seq<Seq<char>>>,
    pub value_field_names: Seq<Seq<char>>,
    pub schema: Seq<(Seq<char>, InnerSchemaFieldS)>,
    pub session_type: SessionType,
}

/// The transparent parser.
#[derive(Debug, PartialEq, Eq)]
pub struct TransparentParser {
    pub key_field_names: Option<Vec<String>>,
    pub value_field_names: Vec<String>,
    pub schema: Schema,
    pub session_type: SessionType,
}

impl View for TransparentParser {
    type V = TransparentParserS;

    open spec fn view(&self) -> TransparentParserS {
        TransparentParserS {
            key_field_names: opt_names_view(self.key_field_names),
            value_field_names: names_view(self.value_field_names@),
            schema: self.schema@,
            session_type: self.session_type,
        }
    }
}

/// The first supplied field named `name`, if any.
pub open spec fn diff_get(
    entries: Seq<(Seq<char>, Result<ValueS, Seq<char>>)>,
    name: Seq<char>,
) -> Option<Result<ValueS, Seq<char>>>
    decreases entries.len(),
{
    if entries.len() == 0 {
        None
    } else if entries[0].0 == name {
        Some(entries[0].1)
    } else {
        diff_get(entries.skip(1), name)
    }
}

/// One field of the pass-through row: the supplied value, or the schema
/// default, per `maybe_use_default`.
pub open spec fn transparent_field_spec(
    p: TransparentParserS,
    entries: Seq<(Seq<char>, Result<ValueS, Seq<char>>)>,
    name: Seq<char>,
) -> Result<ValueS, ParseErrorS> {
    let fld = schema_seq_get(p.schema, name);
    InnerSchemaField::maybe_use_default_spec(
        match fld {
            Some(f) => f,
            None => InnerSchemaFieldS { type_: crate::value::TypeS::Any, default: None },
        },
        name,
        diff_get(entries, name),
    )
}

/// The pass-through row over the configured names.
pub open spec fn transparent_row_spec(
    p: TransparentParserS,
    entries: Seq<(Seq<char>, Result<ValueS, Seq<char>>)>,
    names: Seq<Seq<char>>,
) -> Seq<Result<ValueS, ParseErrorS>> {
    Seq::new(names.len(), |i: int| transparent_field_spec(p, entries, names[i]))
}

/// How the transparent parser reads one reader context: only pre-typed
/// rows are supported; the commit sentinel advances time; a key supplied by
/// the transport takes precedence over configured key fields.
pub open spec fn transparent_parse_spec(p: TransparentParserS, data: ReaderContextS) -> Result<
    Seq<EventWithErrorsS>,
    ParseErrorS,
> {
    match data {
        ReaderContextS::Empty => Ok(Seq::empty()),
        ReaderContextS::Diff(ev, k, vals) => if vals.commit {
            Ok(seq![EventWithErrorsS::AdvanceTime])
        } else {
            let key = match k {
                Some(kid) => Some(Ok(seq![ValueS::Pointer(kid)])),
                None => match p.key_field_names {
                    Some(names) => Some(
                        crate::events::clean_row_spec(
                            crate::events::ErrorRemovalLogic::FailOnError,
                            transparent_row_spec(p, vals.entries, names),
                        ),
                    ),
                    None => None,
                },
            };
            let values = transparent_row_spec(p, vals.entries, p.value_field_names);
            Ok(seq![ParsedEventWithErrors::new_spec(p.session_type, ev, key, values)])
        },
        _ => Err(ParseErrorS::UnsupportedReaderContext),
    }
}

impl TransparentParser {
    /// Builds a transparent parser; fails with `FieldNotInSchema` when a
    /// configured field name is missing from the schema.
    pub fn new(
        key_field_names: Option<Vec<String>>,
        value_field_names: Vec<String>,
        schema: Schema,
        session_type: SessionType,
    ) -> (r: Result<TransparentParser, ParseError>)
        ensures
            r matches Ok(p) ==> p.wf() && p@ == (TransparentParserS {
                key_field_names: opt_names_view(key_field_names),
                value_field_names: names_view(value_field_names@),
                schema: schema@,
                session_type,
            }),
            r is Ok <==> all_fields_in_schema(
                opt_names_view(key_field_names),
                names_view(value_field_names@),
                schema@,
            ),
            r matches Err(e) ==> e@ is FieldNotInSchema,
    {
        match ensure_all_fields_in_schema(&key_field_names, &value_field_names, &schema) {
            Ok(()) => Ok(TransparentParser {
                key_field_names,
                value_field_names,
                schema,
                session_type,
            }),
            Err(e) => Err(e),
        }
    }

    /// Looks a supplied field up, per `diff_get`.
    fn lookup(vals: &DiffValues, name: &str) -> (r: Option<
        Result<Value, crate::errors::ConversionError>,
    >)
        ensures
            match r {
                Some(Ok(v)) => diff_get(vals@.entries, name@) == Some(
                    Ok::<ValueS, Seq<char>>(v@),
                ),
                Some(Err(c)) => diff_get(vals@.entries, name@) == Some(
                    Err::<ValueS, Seq<char>>(c@),
                ),
                None => diff_get(vals@.entries, name@) is None,
            },
    {
        let mut i: usize = 0;
        while i < vals.entries.len()
            invariant
                i <= vals.entries@.len(),
                forall|j: int| 0 <= j < i ==> vals@.entries[j].0 != name@,
                vals@.entries.len() == vals.entries@.len(),
                forall|j: int| 0 <= j < vals.entries@.len() ==> vals@.entries[j] == (
                    vals.entries@[j].name@,
                    match vals.entries@[j].value {
                        Ok(ref v) => Ok::<ValueS, Seq<char>>(v@),
                        Err(ref c) => Err::<ValueS, Seq<char>>(c@),
                    },
                ),
            decreases vals.entries@.len() - i,
        {
            if crate::text::str_eq(vals.entries[i].name.as_str(), name) {
                proof {
                    lemma_diff_get_prefix(vals@.entries, name@, i as int);
                }
                let r = match &vals.entries[i].value {
                    Ok(v) => Some(Ok(v.duplicate())),
                    Err(c) => Some(
                        Err(crate::errors::ConversionError { message: c.message.clone() }),
                    ),
                };
                return r;
            }
            i += 1;
        }
        proof {
            lemma_diff_get_none(vals@.entries, name@);
        }
        None
    }

    /// Builds one pass-through row, per `transparent_row_spec`.
    fn build_row(&self, vals: &DiffValues, names: &Vec<String>) -> (r: Vec<FieldResult>)
        ensures
            field_results_view(r@) =~= transparent_row_spec(self@, vals@.entries, names_view(names@)),
    {
        let ghost namesv = names_view(names@);
        let mut out: Vec<FieldResult> = Vec::new();
        let mut i: usize = 0;
        while i < names.len()
            invariant
                namesv == names_view(names@),
                i <= names@.len(),
                out@.len() == i,
                forall|k: int| 0 <= k < i ==> field_results_view(out@)[k]
                    == transparent_field_spec(self@, vals@.entries, namesv[k]),
            decreases names@.len() - i,
        {
            proof {
                assert(namesv[i as int] == names@[i as int]@);
            }
            let name = &names[i];
            let supplied = Self::lookup(vals, name.as_str());
            let fallback = InnerSchemaField { type_: crate::value::Type::Any, default: None };
            let item: FieldResult = match self.schema.get(name.as_str()) {
                Some(f) => f.maybe_use_default(name.as_str(), supplied),
                None => fallback.maybe_use_default(name.as_str(), supplied),
            };
            let ghost out0 = out@;
            out.push(item);
            proof {
                assert forall|k: int| 0 <= k < i + 1 implies field_results_view(out@)[k]
                    == transparent_field_spec(self@, vals@.entries, namesv[k]) by {
                    assert(field_results_view(out@)[k] == field_result_view(out@[k]));
                    if k < i {
                        assert(out@[k] == out0[k]);
                        assert(field_results_view(out0)[k] == field_result_view(out0[k]));
                    } else {
                        assert(out@[k] == item);
                    }
                }
            }
            i += 1;
        }
        out
    }
}

proof fn lemma_diff_get_prefix(
    entries: Seq<(Seq<char>, Result<ValueS, Seq<char>>)>,
    name: Seq<char>,
    k: int,
)
    requires
        0 <= k < entries.len(),
        forall|j: int| 0 <= j < k ==> entries[j].0 != name,
        entries[k].0 == name,
    ensures
        diff_get(entries, name) == Some(entries[k].1),
    decreases k,
{
    if k > 0 {
        lemma_diff_get_prefix(entries.skip(1), name, k - 1);
        assert(entries.skip(1)[k - 1] == entries[k]);
    }
}

proof fn lemma_diff_get_none(
    entries: Seq<(Seq<char>, Result<ValueS, Seq<char>>)>,
    name: Seq<char>,
)
    requires
        forall|j: int| 0 <= j < entries.len() ==> entries[j].0 != name,
    ensures
        diff_get(entries, name) is None,
    decreases entries.len(),
{
    if entries.len() > 0 {
        assert forall|j: int| 0 <= j < entries.skip(1).len() implies entries.skip(1)[j].0
            != name by {
            assert(entries.skip(1)[j] == entries[j + 1]);
        }
        lemma_diff_get_none(entries.skip(1), name);
    }
}

impl Parser for TransparentParser {
    open spec fn wf(&self) -> bool {
        all_fields_in_schema(self@.key_field_names, self@.value_field_names, self@.schema)
    }

    open spec fn col_count(&self) -> int {
        self@.value_field_names.len() as int
    }

    open spec fn session_spec(&self) -> SessionType {
        self@.session_type
    }

    /// Only pre-typed rows arrive here, with tags fitting the session type.
    open spec fn accepts(&self, data: &ReaderContext) -> bool {
        match data@ {
            ReaderContextS::Diff(ev, _, _) => !(self@.session_type == SessionType::Native && ev
                == DataEventType::Upsert) && !(self@.session_type == SessionType::Upsert && ev
                == DataEventType::Insert),
            _ => true,
        }
    }

    open spec fn parse_post(
        &self,
        pre: &Self,
        data: &ReaderContext,
        r: &Result<Vec<ParsedEventWithErrors>, ParseError>,
    ) -> bool {
        &&& *self == *pre
        &&& match *r {
            Ok(ref evs) => transparent_parse_spec(pre@, data@) == Ok::<
                Seq<EventWithErrorsS>,
                ParseErrorS,
            >(events_view(evs@)),
            Err(ref e) => transparent_parse_spec(pre@, data@) == Err::<
                Seq<EventWithErrorsS>,
                ParseErrorS,
            >(e@),
        }
    }

    /// A new source changes nothing.
    open spec fn source_post(&self, pre: &Self, metadata: &Option<JsonValue>) -> bool {
        self == pre
    }

    fn parse(&mut self, data: &ReaderContext) -> (r: Result<
        Vec<ParsedEventWithErrors>,
        ParseError,
    >) {
        let (ev, k, vals) = match data {
            ReaderContext::Empty => {
                let evs: Vec<ParsedEventWithErrors> = Vec::new();
                proof {
                    assert(events_view(evs@) =~= Seq::<EventWithErrorsS>::empty());
                }
                return Ok(evs);
            },
            ReaderContext::Diff(ev, k, vals) => (ev, k, vals),
            _ => {
                return Err(ParseError::UnsupportedReaderContext);
            },
        };
        let mut evs: Vec<ParsedEventWithErrors> = Vec::new();
        if vals.commit {
            evs.push(ParsedEventWithErrors::AdvanceTime);
            proof {
                assert(events_view(evs@) =~= seq![EventWithErrorsS::AdvanceTime]);
                lemma_transparent_width(self@, data@, &Ok(evs@));
            }
            return Ok(evs);
        }
        let key: crate::events::KeyFieldsWithErrors = match k {
            Some(kid) => {
                let mut kv: Vec<Value> = Vec::new();
                kv.push(Value::Pointer(*kid));
                proof {
                    crate::value::lemma_value_view_seq(kv@);
                    assert(value_view_seq(kv@) =~= seq![ValueS::Pointer(kid.id)]);
                }
                Some(Ok(kv))
            },
            None => match &self.key_field_names {
                Some(names) => {
                    let row = self.build_row(vals, names);
                    Some(crate::events::clean_row(
                        crate::events::ErrorRemovalLogic::FailOnError,
                        row,
                    ))
                },
                None => None,
            },
        };
        let values = self.build_row(vals, &self.value_field_names);
        let event = ParsedEventWithErrors::new(self.session_type, *ev, key, values);
        evs.push(event);
        proof {
            assert(events_view(evs@) =~= seq![events_view(evs@)[0]]);
            lemma_transparent_width(self@, data@, &Ok(evs@));
        }
        Ok(evs)
    }

    fn on_new_source_started(&mut self, metadata: &Option<JsonValue>) {
    }

    fn column_count(&self) -> (r: usize) {
        self.value_field_names.len()
    }

    fn session_type(&self) -> (r: SessionType) {
        self.session_type
    }
}

/// Every event the transparent parser yields carries exactly one value
/// field per configured column.
proof fn lemma_transparent_width(
    p: TransparentParserS,
    data: ReaderContextS,
    r: &Result<Seq<ParsedEventWithErrors>, ParseError>,
)
    requires
        ({
            match *r {
                Ok(evs) => transparent_parse_spec(p, data) == Ok::<
                    Seq<EventWithErrorsS>,
                    ParseErrorS,
                >(events_view(evs)),
                Err(ref e) => transparent_parse_spec(p, data) == Err::<
                    Seq<EventWithErrorsS>,
                    ParseErrorS,
                >(e@),
            }
        }),
    ensures
        *r matches Ok(evs) ==> forall|i: int| 0 <= i < evs.len() ==> (#[trigger] evs[i])@.width_ok(
            p.value_field_names.len() as int,
        ),
{
    if let Ok(evs) = *r {
        let res = transparent_parse_spec(p, data);
        assert(events_view(evs).len() == evs.len());
        assert forall|i: int| 0 <= i < evs.len() implies (#[trigger] evs[i])@.width_ok(
            p.value_field_names.len() as int,
        ) by {
            assert(events_view(evs)[i] == evs.map_values(|e: ParsedEventWithErrors| e@)[i]);
            assert(events_view(evs)[i] == evs[i]@);
            assert(res == Ok::<Seq<EventWithErrorsS>, ParseErrorS>(events_view(evs)));
        }
    }
}

} // verus!
