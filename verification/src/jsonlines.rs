//! The JSON-lines parser and formatter.

use vstd::prelude::*;
use vstd::utf8::{valid_utf8, decode_utf8};
use crate::codec::{Formatter, FormatterContext, FormatterContextS, Parser};
use crate::errors::{names_view, FormatterError, FormatterErrorS, ParseError, ParseErrorS};
use crate::events::{
    clean_row, clean_row_spec, commit_text, events_view, DataEventType, ErrorRemovalLogic,
    EventWithErrorsS, ParsedEventWithErrors, ReaderContext, ReaderContextS, SessionType,
};
use crate::jsonio::{json_of, parse_json};
use crate::jsontext::{json_text, json_to_string};
use crate::jsonvalues::{
    json_row_spec, int_num, strmap_view, serialize_value_to_json, value_to_json,
    values_by_names_from_json, values_to_json, StrMap,
};
use crate::schema::{all_fields_in_schema, ensure_all_fields_in_schema, opt_names_view, Schema};
use crate::text::{chars_eq_str, chars_to_string, str_chars, trim_chars, trim_spec};
use crate::value::{
    json_view, json_view_seq, lemma_value_view_seq, JsonEntry, JsonNumber, JsonS, JsonValue,
    Key, Value, ValueS, value_view, value_view_seq,
};

verus! {

/// The model of a `JsonLinesParser`.
#[verifier::ext_equal]
pub struct JsonLinesParserS {
    pub key_field_names: Option<Seq<Seq<char>>>,
    pub value_field_names: Seq<Seq<char>>,
    pub column_paths: Seq<(Seq<char>, Seq<char>)>,
    pub field_absence_is_error: bool,
    pub schema: Seq<(Seq<char>, crate::schema::InnerSchemaFieldS)>,
    pub metadata: ValueS,
    pub session_type: SessionType,
}

/// The JSON-lines parser: each record is one JSON document; configured
/// fields are extracted by pointer path or bare name and coerced under the
/// schema.
#[derive(Debug, PartialEq, Eq)]
pub struct JsonLinesParser {
    pub key_field_names: Option<Vec<String>>,
    pub value_field_names: Vec<String>,
    pub column_paths: StrMap,
    pub field_absence_is_error: bool,
    pub schema: Schema,
    pub metadata_column_value: Value,
    pub session_type: SessionType,
}

impl View for JsonLinesParser {
    type V = JsonLinesParserS;

    open spec fn view(&self) -> JsonLinesParserS {
        JsonLinesParserS {
            key_field_names: opt_names_view(self.key_field_names),
            value_field_names: names_view(self.value_field_names@),
            column_paths: self.column_paths@,
            field_absence_is_error: self.field_absence_is_error,
            schema: self.schema@,
            metadata: self.metadata_column_value@,
            session_type: self.session_type,
        }
    }
}

/// How the JSON-lines parser reads one trimmed line: an empty line is
/// skipped, the commit marker advances time, malformed JSON fails, and
/// otherwise key and value fields are extracted from the document and
/// wrapped under the session type.
pub open spec fn jsonlines_line_spec(
    p: JsonLinesParserS,
    ev: DataEventType,
    line: Seq<char>,
) -> Result<Seq<EventWithErrorsS>, ParseErrorS> {
    if line.len() == 0 {
        Ok(Seq::empty())
    } else if line == commit_text() {
        Ok(seq![EventWithErrorsS::AdvanceTime])
    } else {
        match json_of(line) {
            None => Err(ParseErrorS::FailedToParseJson(line)),
            Some(payload) => {
                let key = match p.key_field_names {
                    Some(names) => Some(
                        clean_row_spec(
                            ErrorRemovalLogic::FailOnError,
                            json_row_spec(
                                payload,
                                names,
                                p.column_paths,
                                p.field_absence_is_error,
                                p.schema,
                                p.metadata,
                            ),
                        ),
                    ),
                    None => None,
                };
                let values = json_row_spec(
                    payload,
                    p.value_field_names,
                    p.column_paths,
                    p.field_absence_is_error,
                    p.schema,
                    p.metadata,
                );
                Ok(
                    seq![
                        ParsedEventWithErrors::new_spec(p.session_type, ev, key, values),
                    ],
                )
            },
        }
    }
}

/// How the JSON-lines parser reads one reader context. The parser state
/// never changes during a parse.
pub open spec fn jsonlines_parse_spec(p: JsonLinesParserS, data: ReaderContextS) -> Result<
    Seq<EventWithErrorsS>,
    ParseErrorS,
> {
    match data {
        ReaderContextS::RawBytes(ev, bytes) => if !valid_utf8(bytes) {
            Err(ParseErrorS::Utf8DecodeFailed)
        } else {
            jsonlines_line_spec(p, ev, trim_spec(decode_utf8(bytes)))
        },
        ReaderContextS::KeyValue(_k, v) => match v {
            Some(bytes) => if !valid_utf8(bytes) {
                Err(ParseErrorS::Utf8DecodeFailed)
            } else {
                jsonlines_line_spec(p, DataEventType::Insert, trim_spec(decode_utf8(bytes)))
            },
            None => Err(ParseErrorS::EmptyKafkaPayload),
        },
        ReaderContextS::Diff(_, _, _) => Err(ParseErrorS::UnsupportedReaderContext),
        ReaderContextS::TokenizedEntries(_, _) => Err(ParseErrorS::UnsupportedReaderContext),
        ReaderContextS::Empty => Ok(Seq::empty()),
    }
}

impl JsonLinesParser {
    /// Builds a JSON-lines parser; fails with `FieldNotInSchema` when a
    /// configured field name is missing from the schema.
    pub fn new(
        key_field_names: Option<Vec<String>>,
        value_field_names: Vec<String>,
        column_paths: StrMap,
        field_absence_is_error: bool,
        schema: Schema,
        session_type: SessionType,
    ) -> (r: Result<JsonLinesParser, ParseError>)
        ensures
            r matches Ok(p) ==> p.wf() && p@ == (JsonLinesParserS {
                key_field_names: opt_names_view(key_field_names),
                value_field_names: names_view(value_field_names@),
                column_paths: strmap_view(column_paths),
                field_absence_is_error,
                schema: schema@,
                metadata: ValueS::Null,
                session_type,
            }),
            r is Ok <==> all_fields_in_schema(
                opt_names_view(key_field_names),
                names_view(value_field_names@),
                schema@,
            ),
            r matches Err(e) ==> e@ is FieldNotInSchema,
    {
        match ensure_all_fields_in_schema(&key_field_names, &value_field_names, &schema) {
            Ok(()) => Ok(JsonLinesParser {
                key_field_names,
                value_field_names,
                column_paths,
                field_absence_is_error,
                schema,
                metadata_column_value: Value::Null,
                session_type,
            }),
            Err(e) => Err(e),
        }
    }

    /// Reads one trimmed line, per `jsonlines_line_spec`.
    fn parse_line(&self, ev: DataEventType, line: &Vec<char>) -> (r: Result<
        Vec<ParsedEventWithErrors>,
        ParseError,
    >)
        requires
            !(self@.session_type == SessionType::Native && ev == DataEventType::Upsert),
            !(self@.session_type == SessionType::Upsert && ev == DataEventType::Insert),
        ensures
            match r {
                Ok(evs) => jsonlines_line_spec(self@, ev, line@) == Ok::<
                    Seq<EventWithErrorsS>,
                    ParseErrorS,
                >(events_view(evs@)),
                Err(e) => jsonlines_line_spec(self@, ev, line@) == Err::<
                    Seq<EventWithErrorsS>,
                    ParseErrorS,
                >(e@),
            },
    {
        if line.len() == 0 {
            let evs: Vec<ParsedEventWithErrors> = Vec::new();
            proof {
                assert(events_view(evs@) =~= Seq::<EventWithErrorsS>::empty());
            }
            return Ok(evs);
        }
        if chars_eq_str(line, "*COMMIT*") {
            let mut evs: Vec<ParsedEventWithErrors> = Vec::new();
            evs.push(ParsedEventWithErrors::AdvanceTime);
            proof {
                assert(events_view(evs@) =~= seq![EventWithErrorsS::AdvanceTime]);
            }
            return Ok(evs);
        }
        let text = chars_to_string(line);
        let payload = match parse_json(text.as_str()) {
            Some(j) => j,
            None => {
                return Err(ParseError::FailedToParseJson(text));
            },
        };
        let key: crate::events::KeyFieldsWithErrors = match &self.key_field_names {
            Some(names) => {
                let row = values_by_names_from_json(
                    &payload,
                    names,
                    &self.column_paths,
                    self.field_absence_is_error,
                    &self.schema,
                    &self.metadata_column_value,
                );
                Some(clean_row(ErrorRemovalLogic::FailOnError, row))
            },
            None => None,
        };
        let values = values_by_names_from_json(
            &payload,
            &self.value_field_names,
            &self.column_paths,
            self.field_absence_is_error,
            &self.schema,
            &self.metadata_column_value,
        );
        let event = ParsedEventWithErrors::new(self.session_type, ev, key, values);
        let mut evs: Vec<ParsedEventWithErrors> = Vec::new();
        evs.push(event);
        proof {
            assert(events_view(evs@) =~= seq![events_view(evs@)[0]]);
        }
        Ok(evs)
    }
}

impl Parser for JsonLinesParser {
    open spec fn wf(&self) -> bool {
        all_fields_in_schema(self@.key_field_names, self@.value_field_names, self@.schema)
    }

    open spec fn col_count(&self) -> int {
        self@.value_field_names.len() as int
    }

    open spec fn session_spec(&self) -> SessionType {
        self@.session_type
    }

    /// The JSON-lines parser accepts no pre-typed rows or pre-split
    /// tokens, and the transport tag must fit the session type.
    open spec fn accepts(&self, data: &ReaderContext) -> bool {
        match data@ {
            ReaderContextS::RawBytes(ev, _) => !(self@.session_type == SessionType::Native && ev
                == DataEventType::Upsert) && !(self@.session_type == SessionType::Upsert && ev
                == DataEventType::Insert),
            ReaderContextS::KeyValue(_, _) => self@.session_type == SessionType::Native,
            _ => true,
        }
    }

    open spec fn parse_post(
        &self,
        pre: &Self,
        data: &ReaderContext,
        r: &Result<Vec<ParsedEventWithErrors>, ParseError>,
    ) -> bool {
        &&& *self == *pre
        &&& match *r {
            Ok(ref evs) => jsonlines_parse_spec(pre@, data@) == Ok::<
                Seq<EventWithErrorsS>,
                ParseErrorS,
            >(events_view(evs@)),
            Err(ref e) => jsonlines_parse_spec(pre@, data@) == Err::<
                Seq<EventWithErrorsS>,
                ParseErrorS,
            >(e@),
        }
    }

    /// A new source only refreshes the cached metadata.
    open spec fn source_post(&self, pre: &Self, metadata: &Option<JsonValue>) -> bool {
        self@ == (JsonLinesParserS {
            metadata: match *metadata {
                Some(ref j) => ValueS::Json(j@),
                None => pre@.metadata,
            },
            ..pre@
        })
    }

    fn parse(&mut self, data: &ReaderContext) -> (r: Result<
        Vec<ParsedEventWithErrors>,
        ParseError,
    >) {
        let res: Result<Vec<ParsedEventWithErrors>, ParseError> = match data {
            ReaderContext::RawBytes(ev, bytes) => {
                match crate::jsonio::utf8_to_string(bytes) {
                    Some(s) => {
                        let chars = str_chars(s.as_str());
                        let line = trim_chars(&chars);
                        self.parse_line(*ev, &line)
                    },
                    None => Err(ParseError::Utf8DecodeFailed),
                }
            },
            ReaderContext::KeyValue(_k, v) => match v {
                Some(bytes) => {
                    match crate::jsonio::utf8_to_string(bytes) {
                        Some(s) => {
                            let chars = str_chars(s.as_str());
                            let line = trim_chars(&chars);
                            self.parse_line(DataEventType::Insert, &line)
                        },
                        None => Err(ParseError::Utf8DecodeFailed),
                    }
                },
                None => Err(ParseError::EmptyKafkaPayload),
            },
            ReaderContext::Diff(_, _, _) => Err(ParseError::UnsupportedReaderContext),
            ReaderContext::TokenizedEntries(_, _) => Err(ParseError::UnsupportedReaderContext),
            ReaderContext::Empty => {
                let evs: Vec<ParsedEventWithErrors> = Vec::new();
                proof {
                    assert(events_view(evs@) =~= Seq::<EventWithErrorsS>::empty());
                }
                Ok(evs)
            },
        };
        proof {
            lemma_jsonlines_width(self@, data@, &res);
        }
        res
    }

    fn on_new_source_started(&mut self, metadata: &Option<JsonValue>) {
        if let Some(j) = metadata {
            self.metadata_column_value = Value::Json(j.duplicate());
        }
    }

    fn column_count(&self) -> (r: usize) {
        self.value_field_names.len()
    }

    fn session_type(&self) -> (r: SessionType) {
        self.session_type
    }
}

/// Every event a JSON-lines parse yields carries exactly one value field
/// per configured value column.
proof fn lemma_jsonlines_width(
    p: JsonLinesParserS,
    data: ReaderContextS,
    r: &Result<Vec<ParsedEventWithErrors>, ParseError>,
)
    requires
        ({
            match *r {
                Ok(ref evs) => jsonlines_parse_spec(p, data) == Ok::<
                    Seq<EventWithErrorsS>,
                    ParseErrorS,
                >(events_view(evs@)),
                Err(ref e) => jsonlines_parse_spec(p, data) == Err::<
                    Seq<EventWithErrorsS>,
                    ParseErrorS,
                >(e@),
            }
        }),
    ensures
        *r matches Ok(evs) ==> forall|i: int| 0 <= i < evs@.len() ==> (#[trigger] evs@[i])@
            .width_ok(p.value_field_names.len() as int),
{
    if let Ok(ref evs) = *r {
        let res = jsonlines_parse_spec(p, data);
        let nn = p.value_field_names.len() as int;
        assert(events_view(evs@).len() == evs@.len());
        assert forall|i: int| 0 <= i < evs@.len() implies (#[trigger] evs@[i])@.width_ok(nn) by {
            assert(events_view(evs@)[i] == evs@.map_values(|e: ParsedEventWithErrors| e@)[i]);
            assert(events_view(evs@)[i] == evs@[i]@);
            assert(res == Ok::<Seq<EventWithErrorsS>, ParseErrorS>(events_view(evs@)));
            match data {
                ReaderContextS::RawBytes(ev, bytes) => {
                    lemma_line_width(p, ev, trim_spec(decode_utf8(bytes)), i);
                },
                ReaderContextS::KeyValue(_k, v) => {
                    if let Some(bytes) = v {
                        lemma_line_width(
                            p,
                            DataEventType::Insert,
                            trim_spec(decode_utf8(bytes)),
                            i,
                        );
                    }
                },
                _ => {},
            }
        }
    }
}

/// The width of the `i`th event of one line read.
proof fn lemma_line_width(p: JsonLinesParserS, ev: DataEventType, line: Seq<char>, i: int)
    ensures
        ({
            let res = jsonlines_line_spec(p, ev, line);
            res matches Ok(evs) ==> (0 <= i < evs.len() ==> (#[trigger] evs[i]).width_ok(
                p.value_field_names.len() as int,
            ))
        }),
{
    let res = jsonlines_line_spec(p, ev, line);
    if res is Ok && 0 <= i < res->Ok_0.len() {
        if line.len() == 0 {
        } else if line == commit_text() {
        } else if json_of(line) is Some {
            let payload = json_of(line)->Some_0;
            let values = json_row_spec(
                payload,
                p.value_field_names,
                p.column_paths,
                p.field_absence_is_error,
                p.schema,
                p.metadata,
            );
            assert(values.len() == p.value_field_names.len());
        }
    }
}

/// The JSON-lines formatter: one JSON object per event, with one entry per
/// value field (in configured order), then `diff` and `time`.
#[derive(Debug, PartialEq, Eq)]
pub struct JsonLinesFormatter {
    pub value_field_names: Vec<String>,
}

/// The object entries of one formatted event: each configured name paired
/// with its serialized value (names and values zipped; the shorter side
/// ends the pairing), then `diff` and `time` as numbers.
pub open spec fn jsonlines_entries_spec(
    names: Seq<Seq<char>>,
    values: Seq<ValueS>,
    time: u64,
    diff: i64,
) -> Seq<(Seq<char>, JsonS)>
    recommends
        values_to_json(values) is Ok,
{
    let n = if names.len() <= values.len() {
        names.len() as int
    } else {
        values.len() as int
    };
    Seq::new(n as nat, |i: int| (names[i], value_to_json(values[i])->Ok_0)) + seq![
        ("diff"@, JsonS::Number(int_num(diff as int))),
        ("time"@, JsonS::Number(u64_num(time))),
    ]
}

/// The JSON number carrying an unsigned timestamp: its `i64` reading when
/// it fits, and its decimal rendering.
pub open spec fn u64_num(t: u64) -> crate::value::JsonNumS {
    crate::value::JsonNumS {
        as_int: if t <= i64::MAX {
            Some(t as i64)
        } else {
            None
        },
        float_repr: None,
        repr: crate::num::dec_text(t as nat),
    }
}

/// The first serialization failure among the zipped values, if any.
pub open spec fn jsonlines_row_error(names: Seq<Seq<char>>, values: Seq<ValueS>) -> Option<
    FormatterErrorS,
>
    decreases names.len(), values.len(),
{
    if names.len() == 0 || values.len() == 0 {
        None
    } else {
        match value_to_json(values[0]) {
            Ok(_) => jsonlines_row_error(names.drop_first(), values.drop_first()),
            Err(e) => Some(e),
        }
    }
}

impl JsonLinesFormatter {
    /// Builds the formatter.
    pub fn new(value_field_names: Vec<String>) -> (r: JsonLinesFormatter)
        ensures
            names_view(r.value_field_names@) == names_view(value_field_names@),
    {
        JsonLinesFormatter { value_field_names }
    }
}

impl Formatter for JsonLinesFormatter {
    open spec fn wf(&self) -> bool {
        true
    }

    /// The payload is the serialized object of `jsonlines_entries_spec`;
    /// a value that does not serialize fails with the first error. The
    /// envelope carries no values.
    open spec fn format_post(
        &self,
        pre: &Self,
        key: Key,
        values: Seq<ValueS>,
        time: u64,
        diff: i64,
        r: &Result<FormatterContext, FormatterError>,
    ) -> bool {
        let names = names_view(pre.value_field_names@);
        &&& *self == *pre
        &&& match jsonlines_row_error(names, values) {
            Some(e) => *r matches Err(err) && err@ == e,
            None => *r matches Ok(ctx) && ctx@ == (FormatterContextS {
                payloads: seq![
                    vstd::utf8::encode_utf8(
                        json_text(JsonS::Object(jsonlines_entries_spec(names, values, time, diff))),
                    ),
                ],
                key: key.id,
                values: Seq::empty(),
                time,
                diff,
            }),
        }
    }

    fn format(&mut self, key: &Key, values: &Vec<Value>, time: u64, diff: i64) -> (r: Result<
        FormatterContext,
        FormatterError,
    >) {
        let ghost names = names_view(self.value_field_names@);
        let ghost valuesv = value_view_seq(values@);
        proof {
            lemma_value_view_seq(values@);
        }
        let n = if self.value_field_names.len() <= values.len() {
            self.value_field_names.len()
        } else {
            values.len()
        };
        let mut entries: Vec<JsonEntry> = Vec::new();
        let mut i: usize = 0;
        while i < n
            invariant
                names == names_view(self.value_field_names@),
                valuesv == value_view_seq(values@),
                valuesv.len() == values@.len(),
                forall|k: int| 0 <= k < values@.len() ==> valuesv[k] == value_view(values@[k]),
                n == if names.len() <= valuesv.len() {
                    names.len() as int
                } else {
                    valuesv.len() as int
                },
                i <= n,
                entries@.len() == i,
                forall|k: int| 0 <= k < i ==> value_to_json(valuesv[k]) is Ok,
                forall|k: int| 0 <= k < i ==> crate::value::json_entries_view(entries@)[k] == (
                    names[k],
                    value_to_json(valuesv[k])->Ok_0,
                ),
            decreases n - i,
        {
            proof {
                assert(names[i as int] == self.value_field_names@[i as int]@);
            }
            let j = match serialize_value_to_json(&values[i]) {
                Ok(j) => j,
                Err(e) => {
                    proof {
                        lemma_row_error_at(names, valuesv, i as int, e@);
                    }
                    return Err(e);
                },
            };
            let ghost entries0 = entries@;
            let ghost jv = j@;
            let ename = self.value_field_names[i].clone();
            let ghost enamev = ename@;
            entries.push(JsonEntry { name: ename, value: j });
            proof {
                crate::value::lemma_json_entries_view(entries0);
                crate::value::lemma_json_entries_view(entries@);
                assert forall|k: int| 0 <= k < i + 1 implies crate::value::json_entries_view(
                    entries@,
                )[k] == (names[k], value_to_json(valuesv[k])->Ok_0) by {
                    assert(crate::value::json_entries_view(entries@)[k] == (
                        entries@[k].name@,
                        json_view(entries@[k].value),
                    ));
                    if k < i {
                        assert(entries@[k] == entries0[k]);
                        assert(crate::value::json_entries_view(entries0)[k] == (
                            entries0[k].name@,
                            json_view(entries0[k].value),
                        ));
                    } else {
                        assert(entries@[k].name@ == enamev);
                        assert(json_view(entries@[k].value) == jv);
                        assert(value_to_json(valuesv[k]) == Ok::<JsonS, FormatterErrorS>(jv));
                    }
                }
            }
            i += 1;
        }
        proof {
            lemma_row_error_none(names, valuesv, n as int);
        }
        let ghost base = entries@;
        let dnum = crate::jsonvalues::int_number(diff);
        let ghost dnumv = dnum@;
        entries.push(JsonEntry {
            name: String::from_str("diff"),
            value: JsonValue::Number(dnum),
        });
        let tnum = JsonNumber {
            as_int: if time <= i64::MAX as u64 {
                Some(time as i64)
            } else {
                None
            },
            float_repr: None,
            repr: crate::num::u64_to_string(time),
        };
        let ghost tnumv = tnum@;
        entries.push(JsonEntry { name: String::from_str("time"), value: JsonValue::Number(tnum) });
        proof {
            crate::value::lemma_json_entries_view(base);
            crate::value::lemma_json_entries_view(entries@);
            let spec_entries = jsonlines_entries_spec(names, valuesv, time, diff);
            assert(tnumv =~= u64_num(time));
            assert(entries@.len() == n + 2);
            assert(spec_entries.len() == n + 2);
            assert forall|k: int| 0 <= k < entries@.len() implies crate::value::json_entries_view(
                entries@,
            )[k] == spec_entries[k] by {
                assert(crate::value::json_entries_view(entries@)[k] == (
                    entries@[k].name@,
                    json_view(entries@[k].value),
                ));
                if k < n {
                    assert(entries@[k] == base[k]);
                    assert(crate::value::json_entries_view(base)[k] == (
                        base[k].name@,
                        json_view(base[k].value),
                    ));
                    assert(spec_entries[k] == (names[k], value_to_json(valuesv[k])->Ok_0));
                } else if k == n {
                    assert(entries@[k].name@ == "diff"@);
                    assert(json_view(entries@[k].value) == JsonS::Number(dnumv));
                    assert(dnumv == int_num(diff as int));
                    assert(spec_entries[k] == ("diff"@, JsonS::Number(int_num(diff as int))));
                } else {
                    assert(entries@[k].name@ == "time"@);
                    assert(json_view(entries@[k].value) == JsonS::Number(tnumv));
                    assert(spec_entries[k] == ("time"@, JsonS::Number(u64_num(time))));
                }
            }
            assert(crate::value::json_entries_view(entries@) =~= spec_entries);
        }
        let obj = JsonValue::Object(entries);
        let text = json_to_string(&obj);
        let payload = crate::dsv::string_bytes(&text);
        let ctx = FormatterContext::new_single_payload(payload, *key, Vec::new(), time, diff);
        proof {
            assert(value_view_seq(Seq::<Value>::empty()) =~= Seq::<ValueS>::empty());
            assert(ctx@ =~= (FormatterContextS {
                payloads: seq![
                    vstd::utf8::encode_utf8(
                        json_text(
                            JsonS::Object(jsonlines_entries_spec(names, valuesv, time, diff)),
                        ),
                    ),
                ],
                key: key.id,
                values: Seq::empty(),
                time,
                diff,
            }));
        }
        Ok(ctx)
    }
}

/// When the first `k` zipped values serialize and value `k` fails, the row
/// error is value `k`'s.
proof fn lemma_row_error_at(names: Seq<Seq<char>>, values: Seq<ValueS>, k: int, e: FormatterErrorS)
    requires
        0 <= k < names.len(),
        k < values.len(),
        forall|j: int| 0 <= j < k ==> value_to_json(values[j]) is Ok,
        value_to_json(values[k]) == Err::<JsonS, FormatterErrorS>(e),
    ensures
        jsonlines_row_error(names, values) == Some(e),
    decreases k,
{
    if k > 0 {
        assert forall|j: int| 0 <= j < k - 1 implies value_to_json(values.drop_first()[j])
            is Ok by {
            assert(values.drop_first()[j] == values[j + 1]);
        }
        assert(values.drop_first()[k - 1] == values[k]);
        lemma_row_error_at(names.drop_first(), values.drop_first(), k - 1, e);
    }
}

/// When every zipped value serializes, there is no row error.
proof fn lemma_row_error_none(names: Seq<Seq<char>>, values: Seq<ValueS>, n: int)
    requires
        n == if names.len() <= values.len() {
            names.len() as int
        } else {
            values.len() as int
        },
        forall|j: int| 0 <= j < n ==> value_to_json(values[j]) is Ok,
    ensures
        jsonlines_row_error(names, values) is None,
    decreases n,
{
    if n > 0 {
        assert(value_to_json(values[0]) is Ok);
        assert forall|j: int| 0 <= j < n - 1 implies value_to_json(values.drop_first()[j])
            is Ok by {
            assert(values.drop_first()[j] == values[j + 1]);
        }
        lemma_row_error_none(names.drop_first(), values.drop_first(), n - 1);
    }
}

} // verus!
