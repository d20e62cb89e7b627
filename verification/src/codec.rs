//! The two capability interfaces of the codec layer: `Parser` (bytes to
//! events) and `Formatter` (events to payloads), and the output envelope
//! `FormatterContext`.

use vstd::prelude::*;
use crate::errors::{FormatterError, ParseError};
use crate::events::{ParsedEventWithErrors, ReaderContext, SessionType};
use crate::value::{JsonValue, Key, Value, ValueS, value_view_seq};

verus! {

/// What a formatter hands back for one event: zero or more payloads, the
/// event's key, the typed values carried through for the transport to bind,
/// and the event's time and diff.
#[derive(Debug, PartialEq, Eq)]
pub struct FormatterContext {
    pub payloads: Vec<Vec<u8>>,
    pub key: Key,
    pub values: Vec<Value>,
    pub time: u64,
    pub diff: i64,
}

/// The model of a `FormatterContext`.
#[verifier::ext_equal]
pub struct FormatterContextS {
    pub payloads: Seq<Seq<u8>>,
    pub key: u128,
    pub values: Seq<ValueS>,
    pub time: u64,
    pub diff: i64,
}

impl View for FormatterContext {
    type V = FormatterContextS;

    open spec fn view(&self) -> FormatterContextS {
        FormatterContextS {
            payloads: Seq::new(self.payloads@.len(), |i: int| self.payloads@[i]@),
            key: self.key.id,
            values: value_view_seq(self.values@),
            time: self.time,
            diff: self.diff,
        }
    }
}

impl FormatterContext {
    /// An envelope with the given payloads.
    pub fn new(payloads: Vec<Vec<u8>>, key: Key, values: Vec<Value>, time: u64, diff: i64) -> (r:
        FormatterContext)
        ensures
            r@ == (FormatterContextS {
                payloads: Seq::new(payloads@.len(), |i: int| payloads@[i]@),
                key: key.id,
                values: value_view_seq(values@),
                time,
                diff,
            }),
    {
        FormatterContext { payloads, key, values, time, diff }
    }

    /// An envelope with exactly one payload.
    pub fn new_single_payload(payload: Vec<u8>, key: Key, values: Vec<Value>, time: u64, diff: i64)
        -> (r: FormatterContext)
        ensures
            r@.payloads =~= seq![payload@],
            r@.key == key.id,
            r@.values == value_view_seq(values@),
            r@.time == time,
            r@.diff == diff,
    {
        let mut payloads: Vec<Vec<u8>> = Vec::new();
        payloads.push(payload);
        FormatterContext { payloads, key, values, time, diff }
    }
}

/// A parser: a stateful translator from reader contexts to events. Every
/// implementation pins its exact behaviour down in `parse_post` and
/// `source_post`; the trait itself guarantees that well-formedness and the
/// column count are preserved and that every event of a successful parse
/// carries exactly `col_count` value fields.
pub trait Parser: Sized {
    /// The parser's internal invariant.
    spec fn wf(&self) -> bool;

    /// The number of value columns of every emitted event.
    spec fn col_count(&self) -> int;

    /// The session type the parser advertises.
    spec fn session_spec(&self) -> SessionType;

    /// The exact relation between the parser before and after a `parse`
    /// call, the context handed in, and the result.
    spec fn parse_post(
        &self,
        pre: &Self,
        data: &ReaderContext,
        r: &Result<Vec<ParsedEventWithErrors>, ParseError>,
    ) -> bool;

    /// The exact effect of `on_new_source_started`.
    spec fn source_post(&self, pre: &Self, metadata: &Option<JsonValue>) -> bool;

    /// The reader contexts this parser may be wired to. Handing a parser a
    /// context outside this set is a configuration bug of the transport,
    /// excluded at wiring time rather than detected at run time.
    spec fn accepts(&self, data: &ReaderContext) -> bool;

    /// Parses one record.
    fn parse(&mut self, data: &ReaderContext) -> (r: Result<
        Vec<ParsedEventWithErrors>,
        ParseError,
    >)
        requires
            old(self).wf(),
            old(self).accepts(data),
        ensures
            final(self).wf(),
            final(self).col_count() == old(self).col_count(),
            final(self).session_spec() == old(self).session_spec(),
            final(self).parse_post(old(self), data, &r),
            r matches Ok(evs) ==> forall|i: int| 0 <= i < evs@.len() ==> (#[trigger] evs@[i])@
                .width_ok(final(self).col_count()),
    ;

    /// Resets per-source state when a new source starts; `metadata` is the
    /// source's metadata JSON, substituted for `_metadata` columns.
    fn on_new_source_started(&mut self, metadata: &Option<JsonValue>)
        requires
            old(self).wf(),
        ensures
            final(self).wf(),
            final(self).col_count() == old(self).col_count(),
            final(self).session_spec() == old(self).session_spec(),
            final(self).source_post(old(self), metadata),
    ;

    /// The number of value columns.
    fn column_count(&self) -> (r: usize)
        requires
            self.wf(),
        ensures
            r as int == self.col_count(),
    ;

    /// The session type the parser advertises.
    fn session_type(&self) -> (r: SessionType)
        ensures
            r == self.session_spec(),
    ;
}

/// A formatter: a stateful translator from events to payload envelopes.
/// Every implementation pins its exact output down in `format_post`.
pub trait Formatter: Sized {
    /// The formatter's internal invariant.
    spec fn wf(&self) -> bool;

    /// The exact relation between the formatter before and after a call,
    /// the event handed in, and the result.
    spec fn format_post(
        &self,
        pre: &Self,
        key: Key,
        values: Seq<ValueS>,
        time: u64,
        diff: i64,
        r: &Result<FormatterContext, FormatterError>,
    ) -> bool;

    /// Formats one event.
    fn format(&mut self, key: &Key, values: &Vec<Value>, time: u64, diff: i64) -> (r: Result<
        FormatterContext,
        FormatterError,
    >)
        requires
            old(self).wf(),
        ensures
            final(self).wf(),
            final(self).format_post(old(self), *key, value_view_seq(values@), time, diff, &r),
            r matches Ok(ctx) ==> ctx@.key == key.id && ctx@.time == time && ctx@.diff == diff,
    ;
}

} // verus!
