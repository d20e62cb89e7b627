//! The identity parser (bytes through as a single field) and the simple
//! formatters: single-column, null and identity.

use vstd::prelude::*;
use vstd::utf8::{valid_utf8, decode_utf8, encode_utf8};
use crate::codec::{Formatter, FormatterContext, FormatterContextS, Parser};
use crate::errors::{names_view, FormatterError, ParseError, ParseErrorS};
use crate::events::{
    clone_values, commit_text, events_view, metadata_name, DataEventType, EventWithErrorsS,
    FieldResult, ParsedEventWithErrors, ReaderContext, ReaderContextS, SessionType,
    field_result_view, field_results_view,
};
use crate::text::{str_chars, trim_chars, trim_spec};
use crate::value::{JsonValue, Key, Value, ValueS, value_view, value_view_seq};

verus! {

/// What a bytes payload becomes: its trimmed UTF-8 text when the parser
/// decodes, else the raw bytes.
pub open spec fn value_from_bytes_spec(bytes: Seq<u8>, parse_utf8: bool) -> Result<
    ValueS,
    ParseErrorS,
> {
    if parse_utf8 {
        if valid_utf8(bytes) {
            Ok(ValueS::Str(trim_spec(decode_utf8(bytes))))
        } else {
            Err(ParseErrorS::Utf8DecodeFailed)
        }
    } else {
        Ok(ValueS::Bytes(bytes))
    }
}

/// Reads one payload, per `value_from_bytes_spec`.
pub fn value_from_bytes(bytes: &Vec<u8>, parse_utf8: bool) -> (r: FieldResult)
    ensures
        field_result_view(r) == value_from_bytes_spec(bytes@, parse_utf8),
{
    if parse_utf8 {
        match crate::jsonio::utf8_to_string(bytes) {
            Some(s) => {
                let chars = str_chars(s.as_str());
                let t = trim_chars(&chars);
                Ok(Value::String(crate::text::chars_to_string(&t)))
            },
            None => Err(ParseError::Utf8DecodeFailed),
        }
    } else {
        Ok(Value::Bytes(crate::value::copy_u8_vec(bytes)))
    }
}

/// Where the event key comes from: always auto-generated downstream, or
/// taken from the message key when the transport supplies one.
#[derive(Clone, Copy, Debug, PartialEq, Eq, Structural)]
pub enum KeyGenerationPolicy {
    AlwaysAutogenerate,
    PreferMessageKey,
}

/// The key fields the policy yields for one message key.
pub open spec fn generate_key_spec(
    policy: KeyGenerationPolicy,
    key: Option<Seq<u8>>,
    parse_utf8: bool,
) -> Option<Result<Seq<ValueS>, ParseErrorS>> {
    match policy {
        KeyGenerationPolicy::AlwaysAutogenerate => None,
        KeyGenerationPolicy::PreferMessageKey => match key {
            Some(bytes) => Some(
                match value_from_bytes_spec(bytes, parse_utf8) {
                    Ok(v) => Ok(seq![v]),
                    Err(e) => Err(e),
                },
            ),
            None => None,
        },
    }
}

impl KeyGenerationPolicy {
    /// Applies the policy, per `generate_key_spec`.
    pub fn generate(self, key: &Option<Vec<u8>>, parse_utf8: bool) -> (r:
        crate::events::KeyFieldsWithErrors)
        ensures
            crate::events::key_fields_view(r) == generate_key_spec(
                self,
                match *key {
                    Some(ref b) => Some(b@),
                    None => None,
                },
                parse_utf8,
            ),
    {
        match self {
            KeyGenerationPolicy::AlwaysAutogenerate => None,
            KeyGenerationPolicy::PreferMessageKey => match key {
                Some(bytes) => {
                    let r = match value_from_bytes(bytes, parse_utf8) {
                        Ok(v) => {
                            let ghost vv = value_view(v);
                            let mut kv: Vec<Value> = Vec::new();
                            kv.push(v);
                            proof {
                                crate::value::lemma_value_view_seq(kv@);
                                assert(value_view_seq(kv@) =~= seq![vv]);
                            }
                            Ok(kv)
                        },
                        Err(e) => Err(e),
                    };
                    Some(r)
                },
                None => None,
            },
        }
    }
}

/// Whether a read payload is the commit marker, as text or as bytes.
pub open spec fn is_commit_value(r: Result<ValueS, ParseErrorS>) -> bool {
    match r {
        Ok(ValueS::Str(s)) => s == commit_text(),
        Ok(ValueS::Bytes(b)) => b == encode_utf8(commit_text()),
        _ => false,
    }
}

/// Tests a read payload for the commit marker, per `is_commit_value`.
pub fn is_commit_literal(value: &FieldResult) -> (r: bool)
    ensures
        r == is_commit_value(field_result_view(*value)),
{
    match value {
        Ok(Value::String(s)) => crate::text::str_eq(s.as_str(), "*COMMIT*"),
        Ok(Value::Bytes(b)) => {
            let lit = "*COMMIT*";
            let litb = lit.as_bytes();
            if b.len() != litb.len() {
                proof {
                    assert(b@ =~= encode_utf8(commit_text()) ==> b@.len() == litb@.len());
                }
                return false;
            }
            let mut i: usize = 0;
            while i < litb.len()
                invariant
                    field_result_view(*value) == Ok::<ValueS, ParseErrorS>(ValueS::Bytes(b@)),
                    litb@ == encode_utf8(commit_text()),
                    b@.len() == litb@.len(),
                    i <= litb@.len(),
                    forall|j: int| 0 <= j < i ==> b@[j] == litb@[j],
                decreases litb@.len() - i,
            {
                if b[i] != litb[i] {
                    proof {
                        assert(b@[i as int] != litb@[i as int]);
                    }
                    return false;
                }
                i += 1;
            }
            proof {
                assert(b@ =~= litb@);
            }
            true
        },
        _ => false,
    }
}

/// The model of an `IdentityParser`.
#[verifier::ext_equal]
pub struct IdentityParserS {
    pub value_fields: Seq<Seq<char>>,
    pub parse_utf8: bool,
    pub metadata: ValueS,
    pub session_type: SessionType,
    pub key_generation_policy: KeyGenerationPolicy,
}

/// The identity parser: the payload passes through as a single field,
/// optionally UTF-8 decoded; the metadata sentinel may take one column.
#[derive(Debug, PartialEq, Eq)]
pub struct IdentityParser {
    pub value_fields: Vec<String>,
    pub parse_utf8: bool,
    pub metadata_column_value: Value,
    pub session_type: SessionType,
    pub key_generation_policy: KeyGenerationPolicy,
}

impl View for IdentityParser {
    type V = IdentityParserS;

    open spec fn view(&self) -> IdentityParserS {
        IdentityParserS {
            value_fields: names_view(self.value_fields@),
            parse_utf8: self.parse_utf8,
            metadata: self.metadata_column_value@,
            session_type: self.session_type,
            key_generation_policy: self.key_generation_policy,
        }
    }
}

/// How many of the configured fields are the metadata sentinel.
pub open spec fn meta_count(names: Seq<Seq<char>>) -> int
    decreases names.len(),
{
    if names.len() == 0 {
        0
    } else {
        meta_count(names.drop_last()) + if names.last() == metadata_name() {
            1int
        } else {
            0int
        }
    }
}

/// The row the identity parser emits: the metadata sentinel takes the
/// cached metadata, every other field takes the payload.
pub open spec fn identity_row_spec(p: IdentityParserS, value: Result<ValueS, ParseErrorS>) -> Seq<
    Result<ValueS, ParseErrorS>,
> {
    Seq::new(
        p.value_fields.len(),
        |i: int|
            if p.value_fields[i] == metadata_name() {
                Ok(p.metadata)
            } else {
                value
            },
    )
}

/// How the identity parser reads one reader context: the commit marker
/// yields the watermark token, anything else one event whose fields are
/// the payload (and possibly the metadata), wrapped under the session type.
pub open spec fn identity_parse_spec(p: IdentityParserS, data: ReaderContextS) -> Result<
    Seq<EventWithErrorsS>,
    ParseErrorS,
> {
    let triple: Result<
        (DataEventType, Option<Result<Seq<ValueS>, ParseErrorS>>, Result<ValueS, ParseErrorS>),
        ParseErrorS,
    > = match data {
        ReaderContextS::RawBytes(ev, bytes) => Ok(
            (ev, None, value_from_bytes_spec(bytes, p.parse_utf8)),
        ),
        ReaderContextS::KeyValue(k, v) => match v {
            Some(bytes) => Ok(
                (
                    DataEventType::Insert,
                    generate_key_spec(p.key_generation_policy, k, p.parse_utf8),
                    value_from_bytes_spec(bytes, p.parse_utf8),
                ),
            ),
            None => Err(ParseErrorS::EmptyKafkaPayload),
        },
        ReaderContextS::Empty => Ok(
            (DataEventType::Insert, None, Err(ParseErrorS::EmptyKafkaPayload)),
        ),
        _ => Err(ParseErrorS::UnsupportedReaderContext),
    };
    match data {
        ReaderContextS::Empty => Ok(Seq::empty()),
        _ => match triple {
            Err(e) => Err(e),
            Ok((ev, key, value)) => if is_commit_value(value) {
                Ok(seq![EventWithErrorsS::AdvanceTime])
            } else {
                Ok(
                    seq![
                        ParsedEventWithErrors::new_spec(
                            p.session_type,
                            ev,
                            key,
                            identity_row_spec(p, value),
                        ),
                    ],
                )
            },
        },
    }
}

impl IdentityParser {
    /// Builds the identity parser.
    pub fn new(
        value_fields: Vec<String>,
        parse_utf8: bool,
        key_generation_policy: KeyGenerationPolicy,
        session_type: SessionType,
    ) -> (r: IdentityParser)
        ensures
            r@ == (IdentityParserS {
                value_fields: names_view(value_fields@),
                parse_utf8,
                metadata: ValueS::Null,
                session_type,
                key_generation_policy,
            }),
    {
        IdentityParser {
            value_fields,
            parse_utf8,
            metadata_column_value: Value::Null,
            key_generation_policy,
            session_type,
        }
    }

    /// Builds the emitted row, per `identity_row_spec`.
    fn build_row(&self, value: FieldResult) -> (r: Vec<FieldResult>)
        requires
            value matches Err(e) ==> e@ is Utf8DecodeFailed,
        ensures
            field_results_view(r@) =~= identity_row_spec(self@, field_result_view(value)),
    {
        let ghost valuev = field_result_view(value);
        let mut out: Vec<FieldResult> = Vec::new();
        let mut i: usize = 0;
        while i < self.value_fields.len()
            invariant
                value matches Err(e) ==> e@ is Utf8DecodeFailed,
                valuev == field_result_view(value),
                i <= self.value_fields@.len(),
                out@.len() == i,
                forall|k: int| 0 <= k < i ==> field_results_view(out@)[k] == (if names_view(
                    self.value_fields@,
                )[k] == metadata_name() {
                    Ok::<ValueS, ParseErrorS>(self@.metadata)
                } else {
                    valuev
                }),
            decreases self.value_fields@.len() - i,
        {
            proof {
                assert(names_view(self.value_fields@)[i as int] == self.value_fields@[i as int]@);
            }
            let item: FieldResult = if crate::text::str_eq(
                self.value_fields[i].as_str(),
                "_metadata",
            ) {
                Ok(self.metadata_column_value.duplicate())
            } else {
                match &value {
                    Ok(v) => Ok(v.duplicate()),
                    Err(e) => Err(duplicate_error(e)),
                }
            };
            let ghost out0 = out@;
            out.push(item);
            proof {
                assert forall|k: int| 0 <= k < i + 1 implies field_results_view(out@)[k] == (
                    if names_view(self.value_fields@)[k] == metadata_name() {
                        Ok::<ValueS, ParseErrorS>(self@.metadata)
                    } else {
                        valuev
                    }) by {
                    assert(field_results_view(out@)[k] == field_result_view(out@[k]));
                    if k < i {
                        assert(out@[k] == out0[k]);
                        assert(field_results_view(out0)[k] == field_result_view(out0[k]));
                    } else {
                        assert(out@[k] == item);
                    }
                }
            }
            i += 1;
        }
        out
    }
}

/// A copy of a stateless parse error. The identity parser may place one
/// decode failure in several cells.
pub fn duplicate_error(e: &ParseError) -> (r: ParseError)
    requires
        e@ is Utf8DecodeFailed || e@ is EmptyKafkaPayload || e@ is UnsupportedReaderContext,
    ensures
        r@ == e@,
{
    match e {
        ParseError::Utf8DecodeFailed => ParseError::Utf8DecodeFailed,
        ParseError::EmptyKafkaPayload => ParseError::EmptyKafkaPayload,
        _ => ParseError::UnsupportedReaderContext,
    }
}

impl Parser for IdentityParser {
    /// At most one metadata column and at most one payload column may be
    /// configured; a second of either is a wiring bug.
    open spec fn wf(&self) -> bool {
        meta_count(self@.value_fields) <= 1 && self@.value_fields.len() - meta_count(
            self@.value_fields,
        ) <= 1
    }

    open spec fn col_count(&self) -> int {
        self@.value_fields.len() as int
    }

    open spec fn session_spec(&self) -> SessionType {
        self@.session_type
    }

    /// Tags must fit the session type; pre-typed rows and pre-split tokens
    /// are not supported.
    open spec fn accepts(&self, data: &ReaderContext) -> bool {
        match data@ {
            ReaderContextS::RawBytes(ev, _) => !(self@.session_type == SessionType::Native && ev
                == DataEventType::Upsert) && !(self@.session_type == SessionType::Upsert && ev
                == DataEventType::Insert),
            ReaderContextS::KeyValue(_, _) => self@.session_type == SessionType::Native,
            _ => true,
        }
    }

    open spec fn parse_post(
        &self,
        pre: &Self,
        data: &ReaderContext,
        r: &Result<Vec<ParsedEventWithErrors>, ParseError>,
    ) -> bool {
        &&& *self == *pre
        &&& match *r {
            Ok(ref evs) => identity_parse_spec(pre@, data@) == Ok::<
                Seq<EventWithErrorsS>,
                ParseErrorS,
            >(events_view(evs@)),
            Err(ref e) => identity_parse_spec(pre@, data@) == Err::<
                Seq<EventWithErrorsS>,
                ParseErrorS,
            >(e@),
        }
    }

    /// A new source only refreshes the cached metadata.
    open spec fn source_post(&self, pre: &Self, metadata: &Option<JsonValue>) -> bool {
        self@ == (IdentityParserS {
            metadata: match *metadata {
                Some(ref j) => ValueS::Json(j@),
                None => pre@.metadata,
            },
            ..pre@
        })
    }

    fn parse(&mut self, data: &ReaderContext) -> (r: Result<
        Vec<ParsedEventWithErrors>,
        ParseError,
    >) {
        let (event, key, value): (
            DataEventType,
            crate::events::KeyFieldsWithErrors,
            FieldResult,
        ) = match data {
            ReaderContext::RawBytes(ev, raw_bytes) => (
                *ev,
                None,
                value_from_bytes(raw_bytes, self.parse_utf8),
            ),
            ReaderContext::KeyValue(k, v) => match v {
                Some(bytes) => (
                    DataEventType::Insert,
                    self.key_generation_policy.generate(k, self.parse_utf8),
                    value_from_bytes(bytes, self.parse_utf8),
                ),
                None => {
                    return Err(ParseError::EmptyKafkaPayload);
                },
            },
            ReaderContext::Diff(_, _, _) => {
                return Err(ParseError::UnsupportedReaderContext);
            },
            ReaderContext::TokenizedEntries(_, _) => {
                return Err(ParseError::UnsupportedReaderContext);
            },
            ReaderContext::Empty => {
                let evs: Vec<ParsedEventWithErrors> = Vec::new();
                proof {
                    assert(events_view(evs@) =~= Seq::<EventWithErrorsS>::empty());
                }
                return Ok(evs);
            },
        };
        let mut evs: Vec<ParsedEventWithErrors> = Vec::new();
        if is_commit_literal(&value) {
            evs.push(ParsedEventWithErrors::AdvanceTime);
            proof {
                assert(events_view(evs@) =~= seq![EventWithErrorsS::AdvanceTime]);
                lemma_identity_width(self@, data@, &Ok(evs@));
            }
            return Ok(evs);
        }
        let row = self.build_row(value);
        let ev = ParsedEventWithErrors::new(self.session_type, event, key, row);
        evs.push(ev);
        proof {
            assert(events_view(evs@) =~= seq![events_view(evs@)[0]]);
            lemma_identity_width(self@, data@, &Ok(evs@));
        }
        Ok(evs)
    }

    fn on_new_source_started(&mut self, metadata: &Option<JsonValue>) {
        if let Some(j) = metadata {
            self.metadata_column_value = Value::Json(j.duplicate());
        }
    }

    fn column_count(&self) -> (r: usize) {
        self.value_fields.len()
    }

    fn session_type(&self) -> (r: SessionType) {
        self.session_type
    }
}

/// Every event the identity parser yields carries exactly one value field
/// per configured column.
proof fn lemma_identity_width(
    p: IdentityParserS,
    data: ReaderContextS,
    r: &Result<Seq<ParsedEventWithErrors>, ParseError>,
)
    requires
        ({
            match *r {
                Ok(evs) => identity_parse_spec(p, data) == Ok::<
                    Seq<EventWithErrorsS>,
                    ParseErrorS,
                >(events_view(evs)),
                Err(ref e) => identity_parse_spec(p, data) == Err::<
                    Seq<EventWithErrorsS>,
                    ParseErrorS,
                >(e@),
            }
        }),
    ensures
        *r matches Ok(evs) ==> forall|i: int| 0 <= i < evs.len() ==> (#[trigger] evs[i])@.width_ok(
            p.value_fields.len() as int,
        ),
{
    if let Ok(evs) = *r {
        let res = identity_parse_spec(p, data);
        assert(events_view(evs).len() == evs.len());
        assert forall|i: int| 0 <= i < evs.len() implies (#[trigger] evs[i])@.width_ok(
            p.value_fields.len() as int,
        ) by {
            assert(events_view(evs)[i] == evs.map_values(|e: ParsedEventWithErrors| e@)[i]);
            assert(events_view(evs)[i] == evs[i]@);
            assert(res == Ok::<Seq<EventWithErrorsS>, ParseErrorS>(events_view(evs)));
        }
    }
}

/// The single-column formatter: one payload holding the bytes or text of
/// the value at the configured position.
#[derive(Debug, PartialEq, Eq)]
pub struct SingleColumnFormatter {
    pub value_field_index: usize,
}

impl SingleColumnFormatter {
    /// Builds the formatter.
    pub fn new(value_field_index: usize) -> (r: SingleColumnFormatter)
        ensures
            r.value_field_index == value_field_index,
    {
        SingleColumnFormatter { value_field_index }
    }
}

impl Formatter for SingleColumnFormatter {
    open spec fn wf(&self) -> bool {
        true
    }

    /// The payload is the bytes of the chosen value (bytes verbatim, text
    /// UTF-8 encoded); a missing position or any other value type fails.
    /// The event's values ride along in the envelope.
    open spec fn format_post(
        &self,
        pre: &Self,
        key: Key,
        values: Seq<ValueS>,
        time: u64,
        diff: i64,
        r: &Result<FormatterContext, FormatterError>,
    ) -> bool {
        &&& *self == *pre
        &&& if pre.value_field_index >= values.len() {
            *r matches Err(e) && e@ == crate::errors::FormatterErrorS::IncorrectColumnIndex
        } else {
            match values[pre.value_field_index as int] {
                ValueS::Bytes(b) => *r matches Ok(ctx) && ctx@ == (FormatterContextS {
                    payloads: seq![b],
                    key: key.id,
                    values,
                    time,
                    diff,
                }),
                ValueS::Str(s) => *r matches Ok(ctx) && ctx@ == (FormatterContextS {
                    payloads: seq![encode_utf8(s)],
                    key: key.id,
                    values,
                    time,
                    diff,
                }),
                _ => *r matches Err(e) && e@
                    == crate::errors::FormatterErrorS::UnsupportedValueType,
            }
        }
    }

    fn format(&mut self, key: &Key, values: &Vec<Value>, time: u64, diff: i64) -> (r: Result<
        FormatterContext,
        FormatterError,
    >) {
        proof {
            crate::value::lemma_value_view_seq(values@);
        }
        if self.value_field_index >= values.len() {
            return Err(FormatterError::IncorrectColumnIndex);
        }
        let payload: Vec<u8> = match &values[self.value_field_index] {
            Value::Bytes(b) => crate::value::copy_u8_vec(b),
            Value::String(s) => crate::dsv::string_bytes(s),
            _ => {
                return Err(FormatterError::UnsupportedValueType);
            },
        };
        let carried = clone_values(values);
        let ctx = FormatterContext::new_single_payload(payload, *key, carried, time, diff);
        Ok(ctx)
    }
}

/// The null formatter: the record is counted but nothing is transmitted.
#[derive(Debug, PartialEq, Eq)]
pub struct NullFormatter {}

impl NullFormatter {
    /// Builds the formatter.
    pub fn new() -> (r: NullFormatter) {
        NullFormatter {  }
    }
}

impl Default for NullFormatter {
    fn default() -> (r: Self)
        ensures
            r == (NullFormatter {  }),
    {
        Self::new()
    }
}

impl Formatter for NullFormatter {
    open spec fn wf(&self) -> bool {
        true
    }

    /// No payloads, no carried values.
    open spec fn format_post(
        &self,
        pre: &Self,
        key: Key,
        values: Seq<ValueS>,
        time: u64,
        diff: i64,
        r: &Result<FormatterContext, FormatterError>,
    ) -> bool {
        *r matches Ok(ctx) && ctx@ == (FormatterContextS {
            payloads: Seq::empty(),
            key: key.id,
            values: Seq::empty(),
            time,
            diff,
        })
    }

    fn format(&mut self, key: &Key, values: &Vec<Value>, time: u64, diff: i64) -> (r: Result<
        FormatterContext,
        FormatterError,
    >) {
        let ctx = FormatterContext::new(Vec::new(), *key, Vec::new(), time, diff);
        proof {
            assert(value_view_seq(Seq::<Value>::empty()) =~= Seq::<ValueS>::empty());
            assert(ctx@ =~= (FormatterContextS {
                payloads: Seq::empty(),
                key: key.id,
                values: Seq::empty(),
                time,
                diff,
            }));
        }
        Ok(ctx)
    }
}

/// The identity formatter: one empty payload, with the typed values carried
/// through for engine-internal consumers.
#[derive(Debug, PartialEq, Eq)]
pub struct IdentityFormatter {}

impl IdentityFormatter {
    /// Builds the formatter.
    pub fn new() -> (r: IdentityFormatter) {
        IdentityFormatter {  }
    }
}

impl Default for IdentityFormatter {
    fn default() -> (r: Self)
        ensures
            r == (IdentityFormatter {  }),
    {
        Self::new()
    }
}

impl Formatter for IdentityFormatter {
    open spec fn wf(&self) -> bool {
        true
    }

    /// One empty payload; the event's values ride along.
    open spec fn format_post(
        &self,
        pre: &Self,
        key: Key,
        values: Seq<ValueS>,
        time: u64,
        diff: i64,
        r: &Result<FormatterContext, FormatterError>,
    ) -> bool {
        *r matches Ok(ctx) && ctx@ == (FormatterContextS {
            payloads: seq![Seq::<u8>::empty()],
            key: key.id,
            values,
            time,
            diff,
        })
    }

    fn format(&mut self, key: &Key, values: &Vec<Value>, time: u64, diff: i64) -> (r: Result<
        FormatterContext,
        FormatterError,
    >) {
        proof {
            crate::value::lemma_value_view_seq(values@);
        }
        let carried = clone_values(values);
        let ctx = FormatterContext::new_single_payload(Vec::new(), *key, carried, time, diff);
        proof {
            assert(ctx@.payloads =~= seq![Seq::<u8>::empty()]);
            assert(ctx@ =~= (FormatterContextS {
                payloads: seq![Seq::<u8>::empty()],
                key: key.id,
                values: value_view_seq(values@),
                time,
                diff,
            }));
        }
        Ok(ctx)
    }
}

} // verus!
