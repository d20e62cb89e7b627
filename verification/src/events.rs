//! The event algebra shared by every parser: events whose fields may each
//! carry a per-field error, the error-free projection, and the reader-side
//! contexts that transports hand to parsers.

use vstd::prelude::*;
use crate::value::{Key, Value, ValueS, value_view, value_view_seq, lemma_value_view_seq};
use crate::errors::{ConversionError, ParseError, ParseErrorS, parse_error_view};

verus! {

/// The operation tag a transport attaches to a record.
#[derive(Clone, Copy, Debug, PartialEq, Eq, Structural)]
pub enum DataEventType {
    Insert,
    Delete,
    Upsert,
}

/// The contract between a source and the engine: `Native` sources emit
/// absolute row operations, `Upsert` sources emit key-indexed state
/// transitions.
#[derive(Clone, Copy, Debug, PartialEq, Eq, Structural)]
pub enum SessionType {
    Native,
    Upsert,
}

/// One pre-typed field handed over by the transport.
#[derive(Debug, PartialEq, Eq)]
pub struct DiffEntry {
    pub name: String,
    pub value: Result<Value, ConversionError>,
}

/// The pre-typed row of a `Diff` context: either the commit sentinel or a
/// set of named fields.
#[derive(Debug, PartialEq, Eq)]
pub struct DiffValues {
    pub commit: bool,
    pub entries: Vec<DiffEntry>,
}

/// What a transport hands to `Parser::parse` for one record.
#[derive(Debug, PartialEq, Eq)]
pub enum ReaderContext {
    RawBytes(DataEventType, Vec<u8>),
    TokenizedEntries(DataEventType, Vec<String>),
    KeyValue(Option<Vec<u8>>, Option<Vec<u8>>),
    Diff(DataEventType, Option<Key>, DiffValues),
    Empty,
}

/// The commit marker: a record holding exactly this text advances the
/// watermark instead of carrying data.
pub open spec fn commit_text() -> Seq<char> {
    "*COMMIT*"@
}

/// The metadata sentinel: a column of this name takes the source's cached
/// metadata JSON instead of reading from the stream.
pub open spec fn metadata_name() -> Seq<char> {
    "_metadata"@
}

/// The model of a `DiffValues`: the commit flag and the named fields in
/// order, each either a value or the transport's conversion failure text.
#[verifier::ext_equal]
pub struct DiffValuesS {
    pub commit: bool,
    pub entries: Seq<(Seq<char>, Result<ValueS, Seq<char>>)>,
}

impl View for DiffValues {
    type V = DiffValuesS;

    open spec fn view(&self) -> DiffValuesS {
        DiffValuesS {
            commit: self.commit,
            entries: self.entries@.map_values(
                |e: DiffEntry|
                    (
                        e.name@,
                        match e.value {
                            Ok(v) => Ok(v@),
                            Err(ref c) => Err(c@),
                        },
                    ),
            ),
        }
    }
}

/// The model of a `ReaderContext`.
#[verifier::ext_equal]
pub enum ReaderContextS {
    RawBytes(DataEventType, Seq<u8>),
    TokenizedEntries(DataEventType, Seq<Seq<char>>),
    KeyValue(Option<Seq<u8>>, Option<Seq<u8>>),
    Diff(DataEventType, Option<u128>, DiffValuesS),
    Empty,
}

impl View for ReaderContext {
    type V = ReaderContextS;

    open spec fn view(&self) -> ReaderContextS {
        match *self {
            ReaderContext::RawBytes(ev, ref b) => ReaderContextS::RawBytes(ev, b@),
            ReaderContext::TokenizedEntries(ev, ref toks) => ReaderContextS::TokenizedEntries(
                ev,
                crate::errors::names_view(toks@),
            ),
            ReaderContext::KeyValue(ref k, ref v) => ReaderContextS::KeyValue(
                match *k {
                    Some(ref b) => Some(b@),
                    None => None,
                },
                match *v {
                    Some(ref b) => Some(b@),
                    None => None,
                },
            ),
            ReaderContext::Diff(ev, k, ref vals) => ReaderContextS::Diff(
                ev,
                match k {
                    Some(key) => Some(key.id),
                    None => None,
                },
                vals@,
            ),
            ReaderContext::Empty => ReaderContextS::Empty,
        }
    }
}

/// A per-field parse result.
pub type FieldResult = Result<Value, ParseError>;

/// The fields of a key, as one fallible result: a key failure poisons the
/// whole event.
pub type KeyFieldsWithErrors = Option<Result<Vec<Value>, ParseError>>;

/// The value fields of an event, each individually fallible.
pub type ValueFieldsWithErrors = Vec<FieldResult>;

/// The model of a per-field parse result.
pub open spec fn field_result_view(r: FieldResult) -> Result<ValueS, ParseErrorS> {
    match r {
        Ok(v) => Ok(value_view(v)),
        Err(e) => Err(parse_error_view(e)),
    }
}

/// The models of a row of per-field parse results.
pub open spec fn field_results_view(row: Seq<FieldResult>) -> Seq<Result<ValueS, ParseErrorS>> {
    row.map_values(|r: FieldResult| field_result_view(r))
}

/// The model of a key result.
pub open spec fn key_fields_view(k: KeyFieldsWithErrors) -> Option<
    Result<Seq<ValueS>, ParseErrorS>,
> {
    match k {
        None => None,
        Some(Ok(vs)) => Some(Ok(value_view_seq(vs@))),
        Some(Err(e)) => Some(Err(parse_error_view(e))),
    }
}

/// The models of a sequence of events, in order.
pub open spec fn events_view(evs: Seq<ParsedEventWithErrors>) -> Seq<EventWithErrorsS> {
    evs.map_values(|e: ParsedEventWithErrors| e@)
}

/// An event whose per-field values may each individually be an error.
#[derive(Debug, PartialEq, Eq)]
pub enum ParsedEventWithErrors {
    /// A commit watermark token: no key, no payload.
    AdvanceTime,
    /// Append-only semantics.
    Insert((KeyFieldsWithErrors, ValueFieldsWithErrors)),
    /// `None` as the value fields means the row at this key is removed.
    Upsert((KeyFieldsWithErrors, Option<ValueFieldsWithErrors>)),
    /// Removal by key, or by values when the key is absent.
    Delete((KeyFieldsWithErrors, ValueFieldsWithErrors)),
}

/// The model of a `ParsedEventWithErrors`.
#[verifier::ext_equal]
pub enum EventWithErrorsS {
    AdvanceTime,
    Insert(Option<Result<Seq<ValueS>, ParseErrorS>>, Seq<Result<ValueS, ParseErrorS>>),
    Upsert(
        Option<Result<Seq<ValueS>, ParseErrorS>>,
        Option<Seq<Result<ValueS, ParseErrorS>>>,
    ),
    Delete(Option<Result<Seq<ValueS>, ParseErrorS>>, Seq<Result<ValueS, ParseErrorS>>),
}

impl View for ParsedEventWithErrors {
    type V = EventWithErrorsS;

    open spec fn view(&self) -> EventWithErrorsS {
        match *self {
            ParsedEventWithErrors::AdvanceTime => EventWithErrorsS::AdvanceTime,
            ParsedEventWithErrors::Insert((k, vs)) => EventWithErrorsS::Insert(
                key_fields_view(k),
                field_results_view(vs@),
            ),
            ParsedEventWithErrors::Upsert((k, vs)) => EventWithErrorsS::Upsert(
                key_fields_view(k),
                match vs {
                    Some(row) => Some(field_results_view(row@)),
                    None => None,
                },
            ),
            ParsedEventWithErrors::Delete((k, vs)) => EventWithErrorsS::Delete(
                key_fields_view(k),
                field_results_view(vs@),
            ),
        }
    }
}

impl EventWithErrorsS {
    /// Whether every value row of the event has exactly `n` fields.
    pub open spec fn width_ok(self, n: int) -> bool {
        match self {
            EventWithErrorsS::AdvanceTime => true,
            EventWithErrorsS::Insert(_, vs) => vs.len() == n,
            EventWithErrorsS::Upsert(_, vs) => match vs {
                Some(row) => row.len() == n,
                None => true,
            },
            EventWithErrorsS::Delete(_, vs) => vs.len() == n,
        }
    }
}

impl ParsedEventWithErrors {
    /// How a session type maps a transport tag onto an event. Insert tags
    /// are not valid in upsert sessions, nor upsert tags in native ones:
    /// that is a wiring bug, excluded by the precondition.
    pub open spec fn new_spec(
        session_type: SessionType,
        data_event_type: DataEventType,
        key: Option<Result<Seq<ValueS>, ParseErrorS>>,
        values: Seq<Result<ValueS, ParseErrorS>>,
    ) -> EventWithErrorsS {
        match session_type {
            SessionType::Native => match data_event_type {
                DataEventType::Insert => EventWithErrorsS::Insert(key, values),
                _ => EventWithErrorsS::Delete(key, values),
            },
            SessionType::Upsert => match data_event_type {
                DataEventType::Delete => EventWithErrorsS::Upsert(key, None),
                _ => EventWithErrorsS::Upsert(key, Some(values)),
            },
        }
    }

    /// Builds the event for a transport tag under a session type.
    pub fn new(
        session_type: SessionType,
        data_event_type: DataEventType,
        key: KeyFieldsWithErrors,
        values: ValueFieldsWithErrors,
    ) -> (r: ParsedEventWithErrors)
        requires
            !(session_type == SessionType::Native && data_event_type == DataEventType::Upsert),
            !(session_type == SessionType::Upsert && data_event_type == DataEventType::Insert),
        ensures
            r@ == Self::new_spec(
                session_type,
                data_event_type,
                key_fields_view(key),
                field_results_view(values@),
            ),
    {
        match session_type {
            SessionType::Native => match data_event_type {
                DataEventType::Insert => ParsedEventWithErrors::Insert((key, values)),
                _ => ParsedEventWithErrors::Delete((key, values)),
            },
            SessionType::Upsert => match data_event_type {
                DataEventType::Delete => ParsedEventWithErrors::Upsert((key, None)),
                _ => ParsedEventWithErrors::Upsert((key, Some(values))),
            },
        }
    }
}

/// The host's policy for reducing a row of fallible fields to a clean row:
/// fail on the first per-field error, or keep the row with `Value::Error`
/// in each failed cell. A host that drops failed rows uses `FailOnError`
/// and discards the returned error.
#[derive(Clone, Copy, Debug, PartialEq, Eq, Structural)]
pub enum ErrorRemovalLogic {
    FailOnError,
    ReplaceErrors,
}

/// The clean row a policy produces from a row of fallible fields.
pub open spec fn clean_row_spec(
    logic: ErrorRemovalLogic,
    row: Seq<Result<ValueS, ParseErrorS>>,
) -> Result<Seq<ValueS>, ParseErrorS>
    decreases row.len(),
{
    if row.len() == 0 {
        Ok(Seq::empty())
    } else {
        let head: ValueS = match row[0] {
            Ok(v) => v,
            Err(_) => ValueS::Error,
        };
        if row[0] is Err && logic == ErrorRemovalLogic::FailOnError {
            Err(row[0]->Err_0)
        } else {
            match clean_row_spec(logic, row.drop_first()) {
                Ok(rest) => Ok(seq![head] + rest),
                Err(e) => Err(e),
            }
        }
    }
}

/// Applies a policy to one row.
pub fn clean_row(logic: ErrorRemovalLogic, row: ValueFieldsWithErrors) -> (r: Result<
    Vec<Value>,
    ParseError,
>)
    ensures
        r matches Ok(vs) ==> clean_row_spec(logic, field_results_view(row@)) == Ok::<
            Seq<ValueS>,
            ParseErrorS,
        >(value_view_seq(vs@)),
        r matches Err(e) ==> clean_row_spec(logic, field_results_view(row@)) == Err::<
            Seq<ValueS>,
            ParseErrorS,
        >(e@),
{
    let ghost row0 = row@;
    let n = row.len();
    let mut out: Vec<Value> = Vec::new();
    let mut rest = row;
    let mut taken: usize = 0;
    // Walk the row front to back, peeling one field at a time.
    while rest.len() > 0
        invariant
            row0 == row@,
            n == row0.len(),
            taken <= row0.len(),
            rest@ =~= row0.subrange(taken as int, row0.len() as int),
            out@.len() == taken,
            forall|k: int| 0 <= k < taken ==> (#[trigger] field_result_view(row0[k]) matches Ok(v)
                ==> value_view(out@[k]) == v),
            forall|k: int| 0 <= k < taken ==> (#[trigger] field_result_view(row0[k]) is Err ==> {
                &&& logic == ErrorRemovalLogic::ReplaceErrors
                &&& value_view(out@[k]) == ValueS::Error
            }),
        decreases rest@.len(),
    {
        assert(taken < row0.len());
        let item = rest.remove(0);
        assert(item == row0[taken as int]);
        match item {
            Ok(v) => {
                out.push(v);
            },
            Err(e) => match logic {
                ErrorRemovalLogic::FailOnError => {
                    proof {
                        assert forall|j: int| 0 <= j < taken implies field_results_view(row0)[j]
                            is Ok by {
                            assert(field_results_view(row0)[j] == field_result_view(row0[j]));
                            if field_result_view(row0[j]) is Err {
                                assert(logic == ErrorRemovalLogic::ReplaceErrors);
                            }
                        }
                        assert(field_results_view(row0)[taken as int] == field_result_view(
                            row0[taken as int],
                        ));
                        assert(field_result_view(row0[taken as int]) == Err::<
                            ValueS,
                            ParseErrorS,
                        >(e@));
                        lemma_clean_row_first_err(logic, field_results_view(row0), taken as int);
                        assert(clean_row_spec(logic, field_results_view(row0)) == Err::<
                            Seq<ValueS>,
                            ParseErrorS,
                        >(e@));
                        assert(clean_row_spec(logic, field_results_view(row@)) == Err::<
                            Seq<ValueS>,
                            ParseErrorS,
                        >(e@));
                    }
                    return Err(e);
                },
                ErrorRemovalLogic::ReplaceErrors => {
                    out.push(Value::Error);
                },
            },
        }
        taken += 1;
    }
    proof {
        assert(taken == row0.len());
        lemma_value_view_seq(out@);
        let rowv = field_results_view(row0);
        let outv = value_view_seq(out@);
        assert(outv.len() == rowv.len());
        assert forall|k: int| 0 <= k < rowv.len() implies (#[trigger] rowv[k] matches Ok(v)
            ==> outv[k] == v) && (rowv[k] is Err ==> logic == ErrorRemovalLogic::ReplaceErrors
            && outv[k] == ValueS::Error) by {
            assert(rowv[k] == field_result_view(row0[k]));
            assert(outv[k] == value_view(out@[k]));
        }
        lemma_clean_row_all_ok(logic, rowv, outv);
    }
    Ok(out)
}

/// When the first `taken` fields are clean (or replaced) and field `taken`
/// fails under `FailOnError`, the whole row fails with that error.
proof fn lemma_clean_row_first_err(
    logic: ErrorRemovalLogic,
    row: Seq<Result<ValueS, ParseErrorS>>,
    k: int,
)
    requires
        logic == ErrorRemovalLogic::FailOnError,
        0 <= k < row.len(),
        forall|j: int| 0 <= j < k ==> row[j] is Ok,
        row[k] is Err,
    ensures
        clean_row_spec(logic, row) == Err::<Seq<ValueS>, ParseErrorS>(row[k]->Err_0),
    decreases row.len(),
{
    if k > 0 {
        lemma_clean_row_first_err(logic, row.drop_first(), k - 1);
    }
}

/// When every field is clean, or every failed field was replaced, the row
/// succeeds with the collected values.
proof fn lemma_clean_row_all_ok(
    logic: ErrorRemovalLogic,
    row: Seq<Result<ValueS, ParseErrorS>>,
    out: Seq<ValueS>,
)
    requires
        out.len() == row.len(),
        forall|k: int| 0 <= k < row.len() ==> (#[trigger] row[k] matches Ok(v) ==> out[k] == v),
        forall|k: int| 0 <= k < row.len() ==> (#[trigger] row[k] is Err ==> logic
            == ErrorRemovalLogic::ReplaceErrors && out[k] == ValueS::Error),
    ensures
        clean_row_spec(logic, row) == Ok::<Seq<ValueS>, ParseErrorS>(out),
    decreases row.len(),
{
    if row.len() == 0 {
        assert(out =~= Seq::<ValueS>::empty());
    } else {
        let rowt = row.drop_first();
        let outt = out.drop_first();
        assert forall|k: int| 0 <= k < rowt.len() implies ((#[trigger] rowt[k] matches Ok(v)
            ==> outt[k] == v) && (rowt[k] is Err ==> logic == ErrorRemovalLogic::ReplaceErrors
            && outt[k] == ValueS::Error)) by {
            assert(rowt[k] == row[k + 1]);
            assert(outt[k] == out[k + 1]);
        }
        lemma_clean_row_all_ok(logic, rowt, outt);
        assert(row[0] matches Ok(v) ==> out[0] == v);
        assert(row[0] is Err ==> logic == ErrorRemovalLogic::ReplaceErrors && out[0]
            == ValueS::Error);
        assert(out =~= seq![out[0]] + outt);
    }
}

/// The error-free projection of an event.
#[derive(Debug, PartialEq, Eq)]
pub enum ParsedEvent {
    AdvanceTime,
    Insert((Option<Vec<Value>>, Vec<Value>)),
    Upsert((Option<Vec<Value>>, Option<Vec<Value>>)),
    Delete((Option<Vec<Value>>, Vec<Value>)),
}

/// The model of a `ParsedEvent`.
#[verifier::ext_equal]
pub enum EventS {
    AdvanceTime,
    Insert(Option<Seq<ValueS>>, Seq<ValueS>),
    Upsert(Option<Seq<ValueS>>, Option<Seq<ValueS>>),
    Delete(Option<Seq<ValueS>>, Seq<ValueS>),
}

/// The model of an optional clean key.
pub open spec fn key_view(k: Option<Vec<Value>>) -> Option<Seq<ValueS>> {
    match k {
        Some(vs) => Some(value_view_seq(vs@)),
        None => None,
    }
}

impl View for ParsedEvent {
    type V = EventS;

    open spec fn view(&self) -> EventS {
        match *self {
            ParsedEvent::AdvanceTime => EventS::AdvanceTime,
            ParsedEvent::Insert((k, vs)) => EventS::Insert(key_view(k), value_view_seq(vs@)),
            ParsedEvent::Upsert((k, vs)) => EventS::Upsert(
                key_view(k),
                match vs {
                    Some(row) => Some(value_view_seq(row@)),
                    None => None,
                },
            ),
            ParsedEvent::Delete((k, vs)) => EventS::Delete(key_view(k), value_view_seq(vs@)),
        }
    }
}

/// What `remove_errors` yields: the clean projection of `ev` under `logic`,
/// or the first error that poisons it. A key error always poisons the event,
/// wrapped as `ErrorInKey`.
pub open spec fn remove_errors_spec(ev: EventWithErrorsS, logic: ErrorRemovalLogic) -> Result<
    EventS,
    ParseErrorS,
> {
    match ev {
        EventWithErrorsS::AdvanceTime => Ok(EventS::AdvanceTime),
        EventWithErrorsS::Insert(k, vs) => match k {
            Some(Err(e)) => Err(ParseErrorS::ErrorInKey(Box::new(e))),
            _ => {
                let kk = match k {
                    Some(Ok(key)) => Some(key),
                    _ => None,
                };
                match clean_row_spec(logic, vs) {
                    Ok(row) => Ok(EventS::Insert(kk, row)),
                    Err(e) => Err(e),
                }
            },
        },
        EventWithErrorsS::Upsert(k, vs) => match k {
            Some(Err(e)) => Err(ParseErrorS::ErrorInKey(Box::new(e))),
            _ => {
                let kk = match k {
                    Some(Ok(key)) => Some(key),
                    _ => None,
                };
                match vs {
                    None => Ok(EventS::Upsert(kk, None)),
                    Some(row) => match clean_row_spec(logic, row) {
                        Ok(clean) => Ok(EventS::Upsert(kk, Some(clean))),
                        Err(e) => Err(e),
                    },
                }
            },
        },
        EventWithErrorsS::Delete(k, vs) => match k {
            Some(Err(e)) => Err(ParseErrorS::ErrorInKey(Box::new(e))),
            _ => {
                let kk = match k {
                    Some(Ok(key)) => Some(key),
                    _ => None,
                };
                match clean_row_spec(logic, vs) {
                    Ok(row) => Ok(EventS::Delete(kk, row)),
                    Err(e) => Err(e),
                }
            },
        },
    }
}

impl ParsedEventWithErrors {
    /// Reduces the event to its error-free projection under `logic`.
    pub fn remove_errors(self, logic: ErrorRemovalLogic) -> (r: Result<ParsedEvent, ParseError>)
        ensures
            match r {
                Ok(ev) => remove_errors_spec(self@, logic) == Ok::<EventS, ParseErrorS>(ev@),
                Err(e) => remove_errors_spec(self@, logic) == Err::<EventS, ParseErrorS>(e@),
            },
    {
        match self {
            ParsedEventWithErrors::AdvanceTime => Ok(ParsedEvent::AdvanceTime),
            ParsedEventWithErrors::Insert((k, vs)) => {
                let kk = match k {
                    Some(Ok(key)) => Some(key),
                    Some(Err(e)) => {
                        return Err(ParseError::ErrorInKey(Box::new(e)));
                    },
                    None => None,
                };
                match clean_row(logic, vs) {
                    Ok(row) => Ok(ParsedEvent::Insert((kk, row))),
                    Err(e) => Err(e),
                }
            },
            ParsedEventWithErrors::Upsert((k, vs)) => {
                let kk = match k {
                    Some(Ok(key)) => Some(key),
                    Some(Err(e)) => {
                        return Err(ParseError::ErrorInKey(Box::new(e)));
                    },
                    None => None,
                };
                match vs {
                    None => Ok(ParsedEvent::Upsert((kk, None))),
                    Some(row) => match clean_row(logic, row) {
                        Ok(clean) => Ok(ParsedEvent::Upsert((kk, Some(clean)))),
                        Err(e) => Err(e),
                    },
                }
            },
            ParsedEventWithErrors::Delete((k, vs)) => {
                let kk = match k {
                    Some(Ok(key)) => Some(key),
                    Some(Err(e)) => {
                        return Err(ParseError::ErrorInKey(Box::new(e)));
                    },
                    None => None,
                };
                match clean_row(logic, vs) {
                    Ok(row) => Ok(ParsedEvent::Delete((kk, row))),
                    Err(e) => Err(e),
                }
            },
        }
    }
}

/// What becomes of an event in the per-worker snapshot.
#[derive(Debug, PartialEq, Eq)]
pub enum SnapshotEvent {
    Insert(Key, Vec<Value>),
    Upsert(Key, Option<Vec<Value>>),
    Delete(Key, Vec<Value>),
}

/// The model of a `SnapshotEvent`.
#[verifier::ext_equal]
pub enum SnapshotEventS {
    Insert(u128, Seq<ValueS>),
    Upsert(u128, Option<Seq<ValueS>>),
    Delete(u128, Seq<ValueS>),
}

impl View for SnapshotEvent {
    type V = SnapshotEventS;

    open spec fn view(&self) -> SnapshotEventS {
        match *self {
            SnapshotEvent::Insert(k, ref vs) => SnapshotEventS::Insert(k.id, value_view_seq(vs@)),
            SnapshotEvent::Upsert(k, ref vs) => SnapshotEventS::Upsert(
                k.id,
                match vs {
                    Some(row) => Some(value_view_seq(row@)),
                    None => None,
                },
            ),
            SnapshotEvent::Delete(k, ref vs) => SnapshotEventS::Delete(k.id, value_view_seq(vs@)),
        }
    }
}

impl ParsedEvent {
    /// The raw key fields a key may be derived from: `None` for the commit
    /// token (no key exists), `Some(fields)` otherwise, where `fields` is
    /// itself `None` when the downstream layer must auto-generate the key.
    pub fn raw_key(&self) -> (r: Option<&Option<Vec<Value>>>)
        ensures
            match *self {
                ParsedEvent::AdvanceTime => r is None,
                ParsedEvent::Insert((ref k, _)) => r == Some(k),
                ParsedEvent::Upsert((ref k, _)) => r == Some(k),
                ParsedEvent::Delete((ref k, _)) => r == Some(k),
            },
    {
        match self {
            ParsedEvent::AdvanceTime => None,
            ParsedEvent::Insert((k, _)) => Some(k),
            ParsedEvent::Upsert((k, _)) => Some(k),
            ParsedEvent::Delete((k, _)) => Some(k),
        }
    }

    /// The key of the event: `derived` must be the key the host derived
    /// from `raw_key()` and the record offset. The commit token has none.
    pub fn key(&self, derived: Key) -> (r: Option<Key>)
        ensures
            r == if self@ is AdvanceTime {
                None::<Key>
            } else {
                Some(derived)
            },
    {
        match self {
            ParsedEvent::AdvanceTime => None,
            _ => Some(derived),
        }
    }

    /// The snapshot record of the event under key `key`, if any.
    pub fn snapshot_event(&self, key: Key) -> (r: Option<SnapshotEvent>)
        ensures
            match *self {
                ParsedEvent::AdvanceTime => r is None,
                ParsedEvent::Insert((_, ref vs)) => r matches Some(s) && s@
                    == SnapshotEventS::Insert(key.id, value_view_seq(vs@)),
                ParsedEvent::Upsert((_, ref vs)) => r matches Some(s) && s@
                    == SnapshotEventS::Upsert(
                    key.id,
                    match *vs {
                        Some(ref row) => Some(value_view_seq(row@)),
                        None => None,
                    },
                ),
                ParsedEvent::Delete((_, ref vs)) => r matches Some(s) && s@
                    == SnapshotEventS::Delete(key.id, value_view_seq(vs@)),
            },
    {
        match self {
            ParsedEvent::AdvanceTime => None,
            ParsedEvent::Insert((_, vs)) => Some(SnapshotEvent::Insert(key, clone_values(vs))),
            ParsedEvent::Upsert((_, vs)) => Some(SnapshotEvent::Upsert(
                key,
                match vs {
                    Some(row) => Some(clone_values(row)),
                    None => None,
                },
            )),
            ParsedEvent::Delete((_, vs)) => Some(SnapshotEvent::Delete(key, clone_values(vs))),
        }
    }
}

/// A deep copy of a row of values, preserving each value's model.
pub fn clone_values(vs: &Vec<Value>) -> (r: Vec<Value>)
    ensures
        value_view_seq(r@) == value_view_seq(vs@),
{
    let mut out: Vec<Value> = Vec::new();
    let mut i: usize = 0;
    while i < vs.len()
        invariant
            i <= vs@.len(),
            out@.len() == i,
            forall|j: int| 0 <= j < i ==> value_view(out@[j]) == value_view(vs@[j]),
        decreases vs@.len() - i,
    {
        let d = vs[i].duplicate();
        assert(value_view(d) == value_view(vs@[i as int]));
        out.push(d);
        i += 1;
    }
    proof {
        lemma_value_view_seq(out@);
        lemma_value_view_seq(vs@);
        assert(value_view_seq(out@) =~= value_view_seq(vs@));
    }
    out
}

} // verus!
