//! The change-data-capture envelope parser.

use vstd::prelude::*;
use vstd::utf8::{valid_utf8, decode_utf8};
use crate::codec::Parser;
use crate::errors::{names_view, DebeziumFormatError, ParseError, ParseErrorS};
use crate::events::{
    clean_row, clean_row_spec, events_view, DataEventType, ErrorRemovalLogic, EventWithErrorsS,
    ParsedEventWithErrors, ReaderContext, ReaderContextS, SessionType,
};
use crate::jsonio::{json_of, parse_json};
use crate::jsonvalues::{json_row_spec, values_by_names_from_json, StrMap};
use crate::schema::{opt_names_view, Schema};
use crate::text::{
    chars_to_string, split_on_str, split_sub_text, str_chars, strs_view, trim_chars, trim_spec,
};
use crate::value::{JsonS, JsonValue, Value, ValueS};

verus! {

/// The source database kind behind the envelope.
#[derive(Clone, Copy, Debug, PartialEq, Eq, Structural)]
pub enum DebeziumDBType {
    Postgres,
    MongoDB,
}

/// The model of a `DebeziumMessageParser`.
#[verifier::ext_equal]
pub struct DebeziumParserS {
    pub key_field_names: Option<Seq<Seq<char>>>,
    pub value_field_names: Seq<Seq<char>>,
    pub separator: Seq<char>,
    pub db_type: DebeziumDBType,
}

/// The change-data-capture parser: the transport delivers a key document
/// and a value document; `payload.op` selects the emitted events.
#[derive(Debug, PartialEq, Eq)]
pub struct DebeziumMessageParser {
    pub key_field_names: Option<Vec<String>>,
    pub value_field_names: Vec<String>,
    pub separator: String,
    pub db_type: DebeziumDBType,
}

impl View for DebeziumMessageParser {
    type V = DebeziumParserS;

    open spec fn view(&self) -> DebeziumParserS {
        DebeziumParserS {
            key_field_names: opt_names_view(self.key_field_names),
            value_field_names: names_view(self.value_field_names@),
            separator: self.separator@,
            db_type: self.db_type,
        }
    }
}

/// The synthetic key payload used when the transport delivers no key and
/// the parser has no key columns.
pub open spec fn empty_key_payload_text() -> Seq<char> {
    "{\"payload\": {\"before\": {}, \"after\": {}}}"@
}

/// One event from one side of the envelope: a value that is itself a JSON
/// string is parsed a second time (the MongoDB nesting); key and value
/// fields are then read from the documents with field absence an error, and
/// wrapped under the given tag.
pub open spec fn debezium_event_spec(
    p: DebeziumParserS,
    key: JsonS,
    value: JsonS,
    ev: DataEventType,
) -> Result<EventWithErrorsS, ParseErrorS> {
    let prepared = match value {
        JsonS::Str(s) => match json_of(s) {
            Some(pv) => Ok(pv),
            None => Err(ParseErrorS::FailedToParseJson(s)),
        },
        _ => Ok(value),
    };
    match prepared {
        Err(e) => Err(e),
        Ok(pv) => {
            let keyf = match p.key_field_names {
                Some(names) => Some(
                    clean_row_spec(
                        ErrorRemovalLogic::FailOnError,
                        json_row_spec(key, names, Seq::empty(), true, Seq::empty(), ValueS::Null),
                    ),
                ),
                None => None,
            };
            let values = json_row_spec(
                pv,
                p.value_field_names,
                Seq::empty(),
                true,
                Seq::empty(),
                ValueS::Null,
            );
            Ok(
                match ev {
                    DataEventType::Insert => EventWithErrorsS::Insert(keyf, values),
                    DataEventType::Delete => EventWithErrorsS::Delete(keyf, values),
                    DataEventType::Upsert => EventWithErrorsS::Upsert(keyf, Some(values)),
                },
            )
        },
    }
}

/// The key fields alone, for a MongoDB deletion.
pub open spec fn debezium_key_spec(p: DebeziumParserS, key: JsonS) -> Option<
    Result<Seq<ValueS>, ParseErrorS>,
> {
    match p.key_field_names {
        Some(names) => Some(
            clean_row_spec(
                ErrorRemovalLogic::FailOnError,
                json_row_spec(key, names, Seq::empty(), true, Seq::empty(), ValueS::Null),
            ),
        ),
        None => None,
    }
}

/// The events one operation yields: reads and creations insert (Postgres)
/// or upsert (MongoDB) the after-image; updates replace the before-image
/// with the after-image (Postgres) or upsert the after-image (MongoDB);
/// deletions remove the before-image (Postgres) or upsert nothing at the
/// key (MongoDB).
pub open spec fn debezium_op_spec(
    p: DebeziumParserS,
    op: Seq<char>,
    key: JsonS,
    payload: JsonS,
) -> Result<Seq<EventWithErrorsS>, ParseErrorS> {
    if op == "r"@ || op == "c"@ {
        let ev = match p.db_type {
            DebeziumDBType::Postgres => DataEventType::Insert,
            DebeziumDBType::MongoDB => DataEventType::Upsert,
        };
        match debezium_event_spec(p, key, payload.get("after"@), ev) {
            Ok(e) => Ok(seq![e]),
            Err(e) => Err(e),
        }
    } else if op == "u"@ {
        match p.db_type {
            DebeziumDBType::Postgres => match debezium_event_spec(
                p,
                key,
                payload.get("before"@),
                DataEventType::Delete,
            ) {
                Ok(before) => match debezium_event_spec(
                    p,
                    key,
                    payload.get("after"@),
                    DataEventType::Insert,
                ) {
                    Ok(after) => Ok(seq![before, after]),
                    Err(e) => Err(e),
                },
                Err(e) => Err(e),
            },
            DebeziumDBType::MongoDB => match debezium_event_spec(
                p,
                key,
                payload.get("after"@),
                DataEventType::Upsert,
            ) {
                Ok(e) => Ok(seq![e]),
                Err(e) => Err(e),
            },
        }
    } else if op == "d"@ {
        match p.db_type {
            DebeziumDBType::Postgres => match debezium_event_spec(
                p,
                key,
                payload.get("before"@),
                DataEventType::Delete,
            ) {
                Ok(e) => Ok(seq![e]),
                Err(e) => Err(e),
            },
            DebeziumDBType::MongoDB => Ok(
                seq![EventWithErrorsS::Upsert(debezium_key_spec(p, key), None)],
            ),
        }
    } else {
        Err(ParseErrorS::UnsupportedDebeziumOperation(op))
    }
}

/// How one key text and one value text are read: the value must be a JSON
/// document whose root is an object (a `null` root is a tombstone and
/// yields nothing); the key must be JSON; the value must hold a `payload`
/// object whose `op` member is a string naming the operation.
pub open spec fn debezium_strings_spec(p: DebeziumParserS, ks: Seq<char>, vs: Seq<char>) -> Result<
    Seq<EventWithErrorsS>,
    ParseErrorS,
> {
    match json_of(vs) {
        None => Err(ParseErrorS::FailedToParseJson(vs)),
        Some(vj) => match vj {
            JsonS::Object(_) => match json_of(ks) {
                None => Err(ParseErrorS::FailedToParseJson(ks)),
                Some(kj) => if !vj.has("payload"@) {
                    Err(
                        ParseErrorS::DebeziumFormatViolated(
                            DebeziumFormatError::NoPayloadAtTopLevel,
                        ),
                    )
                } else {
                    match vj.get("payload"@).get("op"@) {
                        JsonS::Str(op) => debezium_op_spec(
                            p,
                            op,
                            kj.get("payload"@),
                            vj.get("payload"@),
                        ),
                        _ => Err(
                            ParseErrorS::DebeziumFormatViolated(
                                DebeziumFormatError::OperationFieldMissing,
                            ),
                        ),
                    }
                },
            },
            JsonS::Null => Ok(Seq::empty()),
            _ => Err(
                ParseErrorS::DebeziumFormatViolated(DebeziumFormatError::IncorrectJsonRoot),
            ),
        },
    }
}

/// How the parser reads one reader context: a raw line splits on the
/// configured separator into exactly key and value texts; a key/value pair
/// uses the delivered texts, with the synthetic empty-key payload when no
/// key arrives and no key columns are configured.
pub open spec fn debezium_parse_spec(p: DebeziumParserS, data: ReaderContextS) -> Result<
    Seq<EventWithErrorsS>,
    ParseErrorS,
> {
    match data {
        ReaderContextS::RawBytes(_ev, bytes) => if !valid_utf8(bytes) {
            Err(ParseErrorS::Utf8DecodeFailed)
        } else {
            let toks = split_sub_text(trim_spec(decode_utf8(bytes)), p.separator);
            if toks.len() != 2 {
                Err(ParseErrorS::KeyValueTokensIncorrect(toks.len() as int))
            } else {
                debezium_strings_spec(p, toks[0], toks[1])
            }
        },
        ReaderContextS::KeyValue(k, v) => match v {
            None => Err(ParseErrorS::EmptyKafkaPayload),
            Some(vb) => match k {
                Some(kb) => if !valid_utf8(kb) || !valid_utf8(vb) {
                    Err(ParseErrorS::Utf8DecodeFailed)
                } else {
                    debezium_strings_spec(
                        p,
                        trim_spec(decode_utf8(kb)),
                        trim_spec(decode_utf8(vb)),
                    )
                },
                None => if p.key_field_names is Some {
                    Err(ParseErrorS::EmptyKafkaPayload)
                } else if !valid_utf8(vb) {
                    Err(ParseErrorS::Utf8DecodeFailed)
                } else {
                    debezium_strings_spec(p, empty_key_payload_text(), trim_spec(decode_utf8(vb)))
                },
            },
        },
        _ => Err(ParseErrorS::UnsupportedReaderContext),
    }
}

impl DebeziumMessageParser {
    /// Builds the parser.
    pub fn new(
        key_field_names: Option<Vec<String>>,
        value_field_names: Vec<String>,
        separator: String,
        db_type: DebeziumDBType,
    ) -> (r: DebeziumMessageParser)
        requires
            separator@.len() > 0,
        ensures
            r@ == (DebeziumParserS {
                key_field_names: opt_names_view(key_field_names),
                value_field_names: names_view(value_field_names@),
                separator: separator@,
                db_type,
            }),
            r.wf(),
    {
        DebeziumMessageParser { key_field_names, value_field_names, separator, db_type }
    }

    /// The default key/value separator of the raw test path: eight spaces.
    pub fn standard_separator() -> (r: String)
        ensures
            r@ == "        "@,
            r@.len() == 8,
    {
        let r = String::from_str("        ");
        proof {
            reveal_strlit("        ");
        }
        r
    }

    /// Reads one side of the envelope, per `debezium_event_spec`.
    fn parse_event(&self, key: &JsonValue, value: &JsonValue, event: DataEventType) -> (r: Result<
        ParsedEventWithErrors,
        ParseError,
    >)
        ensures
            match r {
                Ok(ev) => debezium_event_spec(self@, key@, value@, event) == Ok::<
                    EventWithErrorsS,
                    ParseErrorS,
                >(ev@),
                Err(e) => debezium_event_spec(self@, key@, value@, event) == Err::<
                    EventWithErrorsS,
                    ParseErrorS,
                >(e@),
            },
    {
        let prepared: JsonValue = match value {
            JsonValue::Str(serialized) => match parse_json(serialized.as_str()) {
                Some(pv) => pv,
                None => {
                    return Err(ParseError::FailedToParseJson(serialized.clone()));
                },
            },
            _ => value.duplicate(),
        };
        let empty_schema = Schema::new(Vec::new());
        let empty_paths = StrMap::empty();
        proof {
            assert(empty_schema@ =~= Seq::<(Seq<char>, crate::schema::InnerSchemaFieldS)>::empty());
        }
        let keyf: crate::events::KeyFieldsWithErrors = match &self.key_field_names {
            Some(names) => {
                let row = values_by_names_from_json(
                    key,
                    names,
                    &empty_paths,
                    true,
                    &empty_schema,
                    &Value::Null,
                );
                Some(clean_row(ErrorRemovalLogic::FailOnError, row))
            },
            None => None,
        };
        let values = values_by_names_from_json(
            &prepared,
            &self.value_field_names,
            &empty_paths,
            true,
            &empty_schema,
            &Value::Null,
        );
        let ev = match event {
            DataEventType::Insert => ParsedEventWithErrors::Insert((keyf, values)),
            DataEventType::Delete => ParsedEventWithErrors::Delete((keyf, values)),
            DataEventType::Upsert => ParsedEventWithErrors::Upsert((keyf, Some(values))),
        };
        Ok(ev)
    }

    /// Reads a read or create operation, per `debezium_op_spec`.
    fn parse_read_or_create(&self, key: &JsonValue, value: &JsonValue) -> (r: Result<
        Vec<ParsedEventWithErrors>,
        ParseError,
    >)
        ensures
            match r {
                Ok(evs) => debezium_op_spec(self@, "r"@, key@, value@) == Ok::<
                    Seq<EventWithErrorsS>,
                    ParseErrorS,
                >(events_view(evs@)),
                Err(e) => debezium_op_spec(self@, "r"@, key@, value@) == Err::<
                    Seq<EventWithErrorsS>,
                    ParseErrorS,
                >(e@),
            },
    {
        let after_name = str_chars("after");
        let after = match crate::jsonvalues::json_get(value, &after_name) {
            Some(v) => v.duplicate(),
            None => JsonValue::Null,
        };
        proof {
            assert(after@ == value@.get("after"@));
        }
        let ev = match self.db_type {
            DebeziumDBType::Postgres => self.parse_event(key, &after, DataEventType::Insert),
            DebeziumDBType::MongoDB => self.parse_event(key, &after, DataEventType::Upsert),
        };
        match ev {
            Ok(e) => {
                let mut evs: Vec<ParsedEventWithErrors> = Vec::new();
                evs.push(e);
                proof {
                    assert(events_view(evs@) =~= seq![events_view(evs@)[0]]);
                }
                Ok(evs)
            },
            Err(e) => Err(e),
        }
    }

    /// Reads a deletion, per `debezium_op_spec`.
    fn parse_delete(&self, key: &JsonValue, value: &JsonValue) -> (r: Result<
        Vec<ParsedEventWithErrors>,
        ParseError,
    >)
        ensures
            match r {
                Ok(evs) => debezium_op_spec(self@, "d"@, key@, value@) == Ok::<
                    Seq<EventWithErrorsS>,
                    ParseErrorS,
                >(events_view(evs@)),
                Err(e) => debezium_op_spec(self@, "d"@, key@, value@) == Err::<
                    Seq<EventWithErrorsS>,
                    ParseErrorS,
                >(e@),
            },
    {
        proof {
            reveal_strlit("d");
            reveal_strlit("r");
            reveal_strlit("c");
            reveal_strlit("u");
            assert("d"@ != "r"@) by {
                if "d"@ == "r"@ {
                    assert("d"@[0] == "r"@[0]);
                }
            }
            assert("d"@ != "c"@) by {
                if "d"@ == "c"@ {
                    assert("d"@[0] == "c"@[0]);
                }
            }
            assert("d"@ != "u"@) by {
                if "d"@ == "u"@ {
                    assert("d"@[0] == "u"@[0]);
                }
            }
        }
        match self.db_type {
            DebeziumDBType::Postgres => {
                let before_name = str_chars("before");
                let before = match crate::jsonvalues::json_get(value, &before_name) {
                    Some(v) => v.duplicate(),
                    None => JsonValue::Null,
                };
                proof {
                    assert(before@ == value@.get("before"@));
                }
                match self.parse_event(key, &before, DataEventType::Delete) {
                    Ok(e) => {
                        let mut evs: Vec<ParsedEventWithErrors> = Vec::new();
                        evs.push(e);
                        proof {
                            assert(events_view(evs@) =~= seq![events_view(evs@)[0]]);
                        }
                        Ok(evs)
                    },
                    Err(e) => Err(e),
                }
            },
            DebeziumDBType::MongoDB => {
                let empty_schema = Schema::new(Vec::new());
                let empty_paths = StrMap::empty();
                proof {
                    assert(empty_schema@ =~= Seq::<
                        (Seq<char>, crate::schema::InnerSchemaFieldS),
                    >::empty());
                }
                let keyf: crate::events::KeyFieldsWithErrors = match &self.key_field_names {
                    Some(names) => {
                        let row = values_by_names_from_json(
                            key,
                            names,
                            &empty_paths,
                            true,
                            &empty_schema,
                            &Value::Null,
                        );
                        Some(clean_row(ErrorRemovalLogic::FailOnError, row))
                    },
                    None => None,
                };
                let mut evs: Vec<ParsedEventWithErrors> = Vec::new();
                evs.push(ParsedEventWithErrors::Upsert((keyf, None)));
                proof {
                    assert(events_view(evs@) =~= seq![events_view(evs@)[0]]);
                }
                Ok(evs)
            },
        }
    }

    /// Reads an update, per `debezium_op_spec`.
    fn parse_update(&self, key: &JsonValue, value: &JsonValue) -> (r: Result<
        Vec<ParsedEventWithErrors>,
        ParseError,
    >)
        ensures
            match r {
                Ok(evs) => debezium_op_spec(self@, "u"@, key@, value@) == Ok::<
                    Seq<EventWithErrorsS>,
                    ParseErrorS,
                >(events_view(evs@)),
                Err(e) => debezium_op_spec(self@, "u"@, key@, value@) == Err::<
                    Seq<EventWithErrorsS>,
                    ParseErrorS,
                >(e@),
            },
    {
        proof {
            reveal_strlit("d");
            reveal_strlit("r");
            reveal_strlit("c");
            reveal_strlit("u");
        }
        let after_name = str_chars("after");
        let after = match crate::jsonvalues::json_get(value, &after_name) {
            Some(v) => v.duplicate(),
            None => JsonValue::Null,
        };
        proof {
            assert(after@ == value@.get("after"@));
        }
        match self.db_type {
            DebeziumDBType::Postgres => {
                let before_name = str_chars("before");
                let before = match crate::jsonvalues::json_get(value, &before_name) {
                    Some(v) => v.duplicate(),
                    None => JsonValue::Null,
                };
                proof {
                    assert(before@ == value@.get("before"@));
                }
                proof {
                    reveal_strlit("u");
                    reveal_strlit("r");
                    reveal_strlit("c");
                    assert("u"@ != "r"@) by {
                        if "u"@ == "r"@ {
                            assert("u"@[0] == "r"@[0]);
                        }
                    }
                    assert("u"@ != "c"@) by {
                        if "u"@ == "c"@ {
                            assert("u"@[0] == "c"@[0]);
                        }
                    }
                }
                let ev_before = match self.parse_event(key, &before, DataEventType::Delete) {
                    Ok(e) => e,
                    Err(e) => {
                        proof {
                            assert(debezium_event_spec(self@, key@, value@.get("before"@),
                                DataEventType::Delete) == Err::<EventWithErrorsS, ParseErrorS>(e@));
                            assert(debezium_op_spec(self@, "u"@, key@, value@) == Err::<
                                Seq<EventWithErrorsS>,
                                ParseErrorS,
                            >(e@));
                        }
                        return Err(e);
                    },
                };
                let ev_after = match self.parse_event(key, &after, DataEventType::Insert) {
                    Ok(e) => e,
                    Err(e) => {
                        proof {
                            assert(debezium_op_spec(self@, "u"@, key@, value@) == Err::<
                                Seq<EventWithErrorsS>,
                                ParseErrorS,
                            >(e@));
                        }
                        return Err(e);
                    },
                };
                let mut evs: Vec<ParsedEventWithErrors> = Vec::new();
                evs.push(ev_before);
                evs.push(ev_after);
                proof {
                    assert(events_view(evs@) =~= seq![events_view(evs@)[0], events_view(evs@)[1]]);
                }
                Ok(evs)
            },
            DebeziumDBType::MongoDB => {
                match self.parse_event(key, &after, DataEventType::Upsert) {
                    Ok(e) => {
                        let mut evs: Vec<ParsedEventWithErrors> = Vec::new();
                        evs.push(e);
                        proof {
                            assert(events_view(evs@) =~= seq![events_view(evs@)[0]]);
                        }
                        Ok(evs)
                    },
                    Err(e) => Err(e),
                }
            },
        }
    }

    /// Reads one pair of key and value texts, per `debezium_strings_spec`.
    fn parse_strings(&self, raw_key_change: &String, raw_value_change: &String) -> (r: Result<
        Vec<ParsedEventWithErrors>,
        ParseError,
    >)
        ensures
            match r {
                Ok(evs) => debezium_strings_spec(self@, raw_key_change@, raw_value_change@) == Ok::<
                    Seq<EventWithErrorsS>,
                    ParseErrorS,
                >(events_view(evs@)),
                Err(e) => debezium_strings_spec(self@, raw_key_change@, raw_value_change@) == Err::<
                    Seq<EventWithErrorsS>,
                    ParseErrorS,
                >(e@),
            },
    {
        let value_change = match parse_json(raw_value_change.as_str()) {
            Some(j) => j,
            None => {
                return Err(ParseError::FailedToParseJson(raw_value_change.clone()));
            },
        };
        match &value_change {
            JsonValue::Object(_) => {},
            JsonValue::Null => {
                let evs: Vec<ParsedEventWithErrors> = Vec::new();
                proof {
                    assert(events_view(evs@) =~= Seq::<EventWithErrorsS>::empty());
                }
                return Ok(evs);
            },
            _ => {
                return Err(ParseError::DebeziumFormatViolated(
                    DebeziumFormatError::IncorrectJsonRoot,
                ));
            },
        }
        let change_key = match parse_json(raw_key_change.as_str()) {
            Some(j) => j,
            None => {
                return Err(ParseError::FailedToParseJson(raw_key_change.clone()));
            },
        };
        let payload_name = str_chars("payload");
        let payload = match crate::jsonvalues::json_get(&value_change, &payload_name) {
            Some(v) => v.duplicate(),
            None => {
                return Err(ParseError::DebeziumFormatViolated(
                    DebeziumFormatError::NoPayloadAtTopLevel,
                ));
            },
        };
        let key_payload = match crate::jsonvalues::json_get(&change_key, &payload_name) {
            Some(v) => v.duplicate(),
            None => JsonValue::Null,
        };
        proof {
            assert(key_payload@ == change_key@.get("payload"@));
            assert(payload@ == value_change@.get("payload"@));
        }
        let op_name = str_chars("op");
        let op: String = match crate::jsonvalues::json_get(&payload, &op_name) {
            Some(v) => match v {
                JsonValue::Str(op) => op.clone(),
                _ => {
                    proof {
                        assert(!(payload@.get("op"@) is Str));
                    }
                    return Err(ParseError::DebeziumFormatViolated(
                        DebeziumFormatError::OperationFieldMissing,
                    ));
                },
            },
            None => {
                proof {
                    assert(payload@.get("op"@) == JsonS::Null);
                }
                return Err(ParseError::DebeziumFormatViolated(
                    DebeziumFormatError::OperationFieldMissing,
                ));
            },
        };
        proof {
            assert(payload@.get("op"@) == JsonS::Str(op@));
        }
        if crate::text::str_eq(op.as_str(), "r") || crate::text::str_eq(op.as_str(), "c") {
            let r = self.parse_read_or_create(&key_payload, &payload);
            proof {
                lemma_op_rc(self@, op@, key_payload@, payload@);
            }
            r
        } else if crate::text::str_eq(op.as_str(), "u") {
            self.parse_update(&key_payload, &payload)
        } else if crate::text::str_eq(op.as_str(), "d") {
            self.parse_delete(&key_payload, &payload)
        } else {
            Err(ParseError::UnsupportedDebeziumOperation(op))
        }
    }
}

/// Reads and creations follow the same path whichever tag they carry.
proof fn lemma_op_rc(p: DebeziumParserS, op: Seq<char>, key: JsonS, payload: JsonS)
    requires
        op == "r"@ || op == "c"@,
    ensures
        debezium_op_spec(p, op, key, payload) == debezium_op_spec(p, "r"@, key, payload),
{
}

impl Parser for DebeziumMessageParser {
    /// The raw test path splits on the separator, which must be nonempty.
    open spec fn wf(&self) -> bool {
        self@.separator.len() > 0
    }

    open spec fn col_count(&self) -> int {
        self@.value_field_names.len() as int
    }

    /// Postgres envelopes carry both sides of an update; MongoDB envelopes
    /// carry only the after-image, so state is merged downstream.
    open spec fn session_spec(&self) -> SessionType {
        match self@.db_type {
            DebeziumDBType::Postgres => SessionType::Native,
            DebeziumDBType::MongoDB => SessionType::Upsert,
        }
    }

    /// The raw test path only ever delivers insertion-tagged lines; other
    /// contexts besides key/value pairs are not supported.
    open spec fn accepts(&self, data: &ReaderContext) -> bool {
        match data@ {
            ReaderContextS::RawBytes(ev, _) => ev == DataEventType::Insert,
            _ => true,
        }
    }

    open spec fn parse_post(
        &self,
        pre: &Self,
        data: &ReaderContext,
        r: &Result<Vec<ParsedEventWithErrors>, ParseError>,
    ) -> bool {
        &&& *self == *pre
        &&& match *r {
            Ok(ref evs) => debezium_parse_spec(pre@, data@) == Ok::<
                Seq<EventWithErrorsS>,
                ParseErrorS,
            >(events_view(evs@)),
            Err(ref e) => debezium_parse_spec(pre@, data@) == Err::<
                Seq<EventWithErrorsS>,
                ParseErrorS,
            >(e@),
        }
    }

    /// A new source changes nothing.
    open spec fn source_post(&self, pre: &Self, metadata: &Option<JsonValue>) -> bool {
        self == pre
    }

    fn parse(&mut self, data: &ReaderContext) -> (r: Result<
        Vec<ParsedEventWithErrors>,
        ParseError,
    >) {
        let res: Result<Vec<ParsedEventWithErrors>, ParseError> = match data {
            ReaderContext::RawBytes(_event, raw_bytes) => {
                match crate::jsonio::utf8_to_string(raw_bytes) {
                    None => Err(ParseError::Utf8DecodeFailed),
                    Some(s) => {
                        let chars = str_chars(s.as_str());
                        let line = trim_chars(&chars);
                        let sepc = str_chars(self.separator.as_str());
                        let toks = split_on_str(&line, &sepc);
                        if toks.len() != 2 {
                            Err(ParseError::KeyValueTokensIncorrect(toks.len()))
                        } else {
                            proof {
                                assert(strs_view(toks@)[0] == toks@[0]@);
                                assert(strs_view(toks@)[1] == toks@[1]@);
                            }
                            self.parse_strings(&toks[0], &toks[1])
                        }
                    },
                }
            },
            ReaderContext::KeyValue(k, v) => match v {
                None => Err(ParseError::EmptyKafkaPayload),
                Some(vb) => {
                    let key_text: Option<String> = match k {
                        Some(kb) => match crate::jsonio::utf8_to_string(kb) {
                            Some(s) => {
                                let chars = str_chars(s.as_str());
                                let t = trim_chars(&chars);
                                Some(chars_to_string(&t))
                            },
                            None => None,
                        },
                        None => {
                            if self.key_field_names.is_some() {
                                return Err(ParseError::EmptyKafkaPayload);
                            }
                            let s = String::from_str(
                                "{\"payload\": {\"before\": {}, \"after\": {}}}",
                            );
                            Some(s)
                        },
                    };
                    match key_text {
                        None => Err(ParseError::Utf8DecodeFailed),
                        Some(ks) => match crate::jsonio::utf8_to_string(vb) {
                            None => Err(ParseError::Utf8DecodeFailed),
                            Some(vs0) => {
                                let chars = str_chars(vs0.as_str());
                                let t = trim_chars(&chars);
                                let vs = chars_to_string(&t);
                                self.parse_strings(&ks, &vs)
                            },
                        },
                    }
                },
            },
            _ => Err(ParseError::UnsupportedReaderContext),
        };
        proof {
            lemma_debezium_width(self@, data@, &res);
        }
        res
    }

    fn on_new_source_started(&mut self, metadata: &Option<JsonValue>) {
    }

    fn column_count(&self) -> (r: usize) {
        self.value_field_names.len()
    }

    fn session_type(&self) -> (r: SessionType) {
        match self.db_type {
            DebeziumDBType::Postgres => SessionType::Native,
            DebeziumDBType::MongoDB => SessionType::Upsert,
        }
    }
}

/// Every event one operation yields carries exactly one value field per
/// configured value column.
proof fn lemma_debezium_op_width(p: DebeziumParserS, op: Seq<char>, key: JsonS, payload: JsonS)
    ensures
        ({
            let res = debezium_op_spec(p, op, key, payload);
            res matches Ok(evs) ==> forall|i: int| 0 <= i < evs.len() ==> (#[trigger] evs[i])
                .width_ok(p.value_field_names.len() as int)
        }),
{
    let res = debezium_op_spec(p, op, key, payload);
    if res is Ok {
        let evs = res->Ok_0;
        assert forall|i: int| 0 <= i < evs.len() implies (#[trigger] evs[i]).width_ok(
            p.value_field_names.len() as int,
        ) by {}
    }
}

/// Every event one parse yields carries exactly one value field per
/// configured value column.
proof fn lemma_debezium_width(
    p: DebeziumParserS,
    data: ReaderContextS,
    r: &Result<Vec<ParsedEventWithErrors>, ParseError>,
)
    requires
        ({
            match *r {
                Ok(ref evs) => debezium_parse_spec(p, data) == Ok::<
                    Seq<EventWithErrorsS>,
                    ParseErrorS,
                >(events_view(evs@)),
                Err(ref e) => debezium_parse_spec(p, data) == Err::<
                    Seq<EventWithErrorsS>,
                    ParseErrorS,
                >(e@),
            }
        }),
    ensures
        *r matches Ok(evs) ==> forall|i: int| 0 <= i < evs@.len() ==> (#[trigger] evs@[i])@
            .width_ok(p.value_field_names.len() as int),
{
    if let Ok(ref evs) = *r {
        let res = debezium_parse_spec(p, data);
        let nn = p.value_field_names.len() as int;
        assert(events_view(evs@).len() == evs@.len());
        assert forall|i: int| 0 <= i < evs@.len() implies (#[trigger] evs@[i])@.width_ok(nn) by {
            assert(events_view(evs@)[i] == evs@.map_values(|e: ParsedEventWithErrors| e@)[i]);
            assert(events_view(evs@)[i] == evs@[i]@);
            assert(res == Ok::<Seq<EventWithErrorsS>, ParseErrorS>(events_view(evs@)));
            lemma_debezium_strings_width(p, data, i);
        }
    }
}

/// The width of the `i`th event of one parse, by case on the context.
proof fn lemma_debezium_strings_width(p: DebeziumParserS, data: ReaderContextS, i: int)
    ensures
        ({
            let res = debezium_parse_spec(p, data);
            res matches Ok(evs) ==> (0 <= i < evs.len() ==> (#[trigger] evs[i]).width_ok(
                p.value_field_names.len() as int,
            ))
        }),
{
    let res = debezium_parse_spec(p, data);
    if res is Ok {
        match data {
            ReaderContextS::RawBytes(_ev, bytes) => {
                if valid_utf8(bytes) {
                    let toks = split_sub_text(trim_spec(decode_utf8(bytes)), p.separator);
                    if toks.len() == 2 {
                        lemma_strings_width(p, toks[0], toks[1]);
                    }
                }
            },
            ReaderContextS::KeyValue(k, v) => {
                if let Some(vb) = v {
                    match k {
                        Some(kb) => {
                            if valid_utf8(kb) && valid_utf8(vb) {
                                lemma_strings_width(
                                    p,
                                    trim_spec(decode_utf8(kb)),
                                    trim_spec(decode_utf8(vb)),
                                );
                            }
                        },
                        None => {
                            if p.key_field_names is None && valid_utf8(vb) {
                                lemma_strings_width(
                                    p,
                                    empty_key_payload_text(),
                                    trim_spec(decode_utf8(vb)),
                                );
                            }
                        },
                    }
                }
            },
            _ => {},
        }
    }
}

/// The width of every event one pair of texts yields.
proof fn lemma_strings_width(p: DebeziumParserS, ks: Seq<char>, vs: Seq<char>)
    ensures
        ({
            let res = debezium_strings_spec(p, ks, vs);
            res matches Ok(evs) ==> forall|i: int| 0 <= i < evs.len() ==> (#[trigger] evs[i])
                .width_ok(p.value_field_names.len() as int)
        }),
{
    let res = debezium_strings_spec(p, ks, vs);
    if res is Ok {
        if let Some(vj) = json_of(vs) {
            if vj is Object && json_of(ks) is Some && vj.has("payload"@) {
                if let JsonS::Str(op) = vj.get("payload"@).get("op"@) {
                    let kj = json_of(ks)->Some_0;
                    lemma_debezium_op_width(p, op, kj.get("payload"@), vj.get("payload"@));
                }
            }
        }
    }
}

} // verus!
