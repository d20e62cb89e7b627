//! The delimited-text parser and formatter.

use vstd::prelude::*;
use vstd::utf8::{valid_utf8, decode_utf8, encode_utf8};
use crate::codec::{Formatter, FormatterContext, FormatterContextS, Parser};
use crate::errors::{FormatterError, ParseError, ParseErrorS, names_view};
use crate::events::{
    commit_text, metadata_name, clean_row, clean_row_spec, events_view, field_results_view,
    DataEventType, ErrorRemovalLogic, EventWithErrorsS, ParsedEventWithErrors, ReaderContext,
    ReaderContextS, SessionType, ValueFieldsWithErrors,
};
use crate::jsontext::display_text;
use crate::num::{dec_text, int_text};
use crate::schema::{
    all_fields_in_schema, ensure_all_fields_in_schema, names_all_in_schema, opt_names_view,
    parse_with_type, parse_with_type_spec, schema_contains, schema_seq_get, InnerSchemaField,
    InnerSchemaFieldS, Schema,
};
use crate::text::{
    chars_eq_str, chars_to_string, split_on_char, split_text, str_chars, str_eq, strs_view,
    trim_chars, trim_spec,
};
use crate::value::{JsonValue, Key, Value, ValueS, value_view, value_view_seq};

verus! {

/// The configuration of the delimited codec: optional ordered key column
/// names, ordered value column names, and a single-character separator.
#[derive(Debug, PartialEq, Eq)]
pub struct DsvSettings {
    pub key_column_names: Option<Vec<String>>,
    pub value_column_names: Vec<String>,
    pub separator: char,
}

/// The model of a `DsvSettings`.
#[verifier::ext_equal]
pub struct DsvSettingsS {
    pub key_column_names: Option<Seq<Seq<char>>>,
    pub value_column_names: Seq<Seq<char>>,
    pub separator: char,
}

impl View for DsvSettings {
    type V = DsvSettingsS;

    open spec fn view(&self) -> DsvSettingsS {
        DsvSettingsS {
            key_column_names: opt_names_view(self.key_column_names),
            value_column_names: names_view(self.value_column_names@),
            separator: self.separator,
        }
    }
}

impl DsvSettings {
    /// Builds the configuration.
    pub fn new(
        key_column_names: Option<Vec<String>>,
        value_column_names: Vec<String>,
        separator: char,
    ) -> (r: DsvSettings)
        ensures
            r@ == (DsvSettingsS {
                key_column_names: opt_names_view(key_column_names),
                value_column_names: names_view(value_column_names@),
                separator,
            }),
    {
        DsvSettings { key_column_names, value_column_names, separator }
    }

    /// The delimited formatter over this configuration.
    pub fn formatter(self) -> (r: DsvFormatter)
        ensures
            r.settings@ == self@,
            !r.dsv_header_written,
    {
        DsvFormatter::new(self)
    }

    /// The delimited parser over this configuration and schema; fails when
    /// a configured column name is missing from the schema.
    pub fn parser(self, schema: Schema) -> (r: Result<DsvParser, ParseError>)
        ensures
            r matches Ok(p) ==> p.wf() && p.settings@ == self@ && p@.schema == schema@
                && !p@.header_read && p@.metadata == ValueS::Null,
            r is Ok <==> all_fields_in_schema(
                self@.key_column_names,
                self@.value_column_names,
                schema@,
            ),
    {
        DsvParser::new(self, schema)
    }
}

/// Where one configured column reads from: a bound header position with its
/// schema field, or the metadata sentinel.
#[derive(Debug, PartialEq, Eq)]
pub enum DsvColumnIndex {
    IndexWithSchema(usize, InnerSchemaField),
    Metadata,
}

/// The model of a `DsvColumnIndex`.
#[verifier::ext_equal]
pub enum DsvColumnIndexS {
    IndexWithSchema(int, InnerSchemaFieldS),
    Metadata,
}

impl View for DsvColumnIndex {
    type V = DsvColumnIndexS;

    open spec fn view(&self) -> DsvColumnIndexS {
        match *self {
            DsvColumnIndex::IndexWithSchema(i, ref f) => DsvColumnIndexS::IndexWithSchema(
                i as int,
                f@,
            ),
            DsvColumnIndex::Metadata => DsvColumnIndexS::Metadata,
        }
    }
}

/// The models of a sequence of column bindings.
pub open spec fn indices_view(v: Seq<DsvColumnIndex>) -> Seq<DsvColumnIndexS> {
    v.map_values(|x: DsvColumnIndex| x@)
}

/// Whether one binding's position lies below `n`.
pub open spec fn index_bounded(x: DsvColumnIndexS, n: int) -> bool {
    match x {
        DsvColumnIndexS::IndexWithSchema(k, _) => 0 <= k < n,
        DsvColumnIndexS::Metadata => true,
    }
}

/// Whether every bound position lies below `n`.
pub open spec fn indices_bounded(idx: Seq<DsvColumnIndexS>, n: int) -> bool {
    forall|i: int| 0 <= i < idx.len() ==> index_bounded(#[trigger] idx[i], n)
}

/// The position of the last occurrence of `name` in `header`, or -1.
pub open spec fn last_occurrence(header: Seq<Seq<char>>, name: Seq<char>) -> int
    decreases header.len(),
{
    if header.len() == 0 {
        -1
    } else if header.last() == name {
        header.len() - 1
    } else {
        last_occurrence(header.drop_last(), name)
    }
}

/// Whether `header` holds `name` at all.
pub open spec fn header_contains(header: Seq<Seq<char>>, name: Seq<char>) -> bool {
    exists|i: int| 0 <= i < header.len() && header[i] == name
}

/// `last_occurrence` is the greatest matching position, or -1 when none.
pub proof fn lemma_last_occurrence(header: Seq<Seq<char>>, name: Seq<char>)
    ensures
        header_contains(header, name) <==> last_occurrence(header, name) >= 0,
        header_contains(header, name) ==> {
            let k = last_occurrence(header, name);
            &&& 0 <= k < header.len()
            &&& header[k] == name
            &&& forall|j: int| k < j < header.len() ==> header[j] != name
        },
    decreases header.len(),
{
    if header.len() > 0 {
        lemma_last_occurrence(header.drop_last(), name);
        if header.last() == name {
            assert(header[header.len() - 1] == name);
        } else {
            assert forall|j: int| 0 <= j < header.len() && header[j] == name implies j < header.len()
                - 1 by {
                if j == header.len() - 1 {
                    assert(header.last() == name);
                }
            }
            assert forall|j: int| 0 <= j < header.drop_last().len() implies header.drop_last()[j]
                == header[j] by {}
            if header_contains(header, name) {
                let j = choose|j: int| 0 <= j < header.len() && header[j] == name;
                assert(header.drop_last()[j] == name);
            }
        }
    }
}

/// Whether every non-metadata sought name appears in the header.
pub open spec fn all_sought_in_header(header: Seq<Seq<char>>, sought: Seq<Seq<char>>) -> bool {
    forall|i: int| 0 <= i < sought.len() ==> (sought[i] == metadata_name() || header_contains(
        header,
        sought[i],
    ))
}

/// How configured names resolve against a header: the metadata sentinel
/// binds to no position, every other name binds to its last occurrence in
/// the header together with its schema field; a name absent from the header
/// fails the whole resolution, reporting both sets.
pub open spec fn resolve_spec(
    header: Seq<Seq<char>>,
    sought: Seq<Seq<char>>,
    schema: Seq<(Seq<char>, InnerSchemaFieldS)>,
) -> Result<Seq<DsvColumnIndexS>, ParseErrorS> {
    if all_sought_in_header(header, sought) {
        Ok(
            Seq::new(
                sought.len(),
                |i: int|
                    if sought[i] == metadata_name() {
                        DsvColumnIndexS::Metadata
                    } else {
                        DsvColumnIndexS::IndexWithSchema(
                            last_occurrence(header, sought[i]),
                            schema_seq_get(schema, sought[i])->Some_0,
                        )
                    },
            ),
        )
    } else {
        Err(ParseErrorS::FieldsNotFoundInHeader { parsed: header, requested: sought })
    }
}

/// Resolves the sought names against a header, per `resolve_spec`.
fn column_indices_by_names(
    tokenized_entries: &Vec<String>,
    sought_names: &Vec<String>,
    schema: &Schema,
) -> (r: Result<Vec<DsvColumnIndex>, ParseError>)
    requires
        forall|i: int| 0 <= i < sought_names@.len() ==> (names_view(sought_names@)[i]
            == metadata_name() || schema_contains(schema@, names_view(sought_names@)[i])),
    ensures
        match r {
            Ok(idx) => resolve_spec(
                strs_view(tokenized_entries@),
                names_view(sought_names@),
                schema@,
            ) == Ok::<Seq<DsvColumnIndexS>, ParseErrorS>(indices_view(idx@)) && indices_bounded(
                indices_view(idx@),
                tokenized_entries@.len() as int,
            ) && idx@.len() == sought_names@.len(),
            Err(e) => resolve_spec(
                strs_view(tokenized_entries@),
                names_view(sought_names@),
                schema@,
            ) == Err::<Seq<DsvColumnIndexS>, ParseErrorS>(e@),
        },
{
    let ghost headerv = strs_view(tokenized_entries@);
    let ghost soughtv = names_view(sought_names@);
    let mut out: Vec<DsvColumnIndex> = Vec::new();
    let mut i: usize = 0;
    while i < sought_names.len()
        invariant
            headerv == strs_view(tokenized_entries@),
            soughtv == names_view(sought_names@),
            forall|k: int| 0 <= k < soughtv.len() ==> (soughtv[k] == metadata_name()
                || schema_contains(schema@, soughtv[k])),
            i <= sought_names@.len(),
            out@.len() == i,
            forall|k: int| 0 <= k < i ==> (soughtv[k] == metadata_name() || header_contains(
                headerv,
                soughtv[k],
            )),
            forall|k: int| 0 <= k < i ==> indices_view(out@)[k] == (if soughtv[k]
                == metadata_name() {
                DsvColumnIndexS::Metadata
            } else {
                DsvColumnIndexS::IndexWithSchema(
                    last_occurrence(headerv, soughtv[k]),
                    schema_seq_get(schema@, soughtv[k])->Some_0,
                )
            }),
        decreases sought_names@.len() - i,
    {
        let name = &sought_names[i];
        proof {
            assert(soughtv[i as int] == name@);
        }
        if str_eq(name.as_str(), "_metadata") {
            out.push(DsvColumnIndex::Metadata);
        } else {
            // Scan the whole header; the last occurrence wins.
            let mut found: Option<usize> = None;
            let mut j: usize = 0;
            while j < tokenized_entries.len()
                invariant
                    headerv == strs_view(tokenized_entries@),
                    j <= tokenized_entries@.len(),
                    match found {
                        Some(k) => k < j && headerv[k as int] == name@ && forall|m: int|
                            k < m < j ==> headerv[m] != name@,
                        None => forall|m: int| 0 <= m < j ==> headerv[m] != name@,
                    },
                decreases tokenized_entries@.len() - j,
            {
                if str_eq(tokenized_entries[j].as_str(), name.as_str()) {
                    found = Some(j);
                }
                j += 1;
            }
            match found {
                Some(k) => {
                    proof {
                        lemma_last_occurrence(headerv, name@);
                        assert(header_contains(headerv, name@));
                        assert(last_occurrence(headerv, name@) == k as int) by {
                            let l = last_occurrence(headerv, name@);
                            if l < k {
                                assert(headerv[k as int] == name@);
                            }
                            if l > k {
                                assert(headerv[l] != name@);
                            }
                        }
                    }
                    match schema.get(name.as_str()) {
                        Some(f) => {
                            out.push(DsvColumnIndex::IndexWithSchema(k, f.duplicate()));
                        },
                        None => {
                            proof {
                                assert(schema_contains(schema@, name@));
                                assert(false);
                            }
                            out.push(DsvColumnIndex::Metadata);
                        },
                    }
                },
                None => {
                    proof {
                        lemma_last_occurrence(headerv, name@);
                        assert(!header_contains(headerv, name@)) by {
                            if header_contains(headerv, name@) {
                                let m = choose|m: int|
                                    0 <= m < headerv.len() && headerv[m] == name@;
                                assert(headerv[m] != name@);
                            }
                        }
                        assert(!all_sought_in_header(headerv, soughtv));
                    }
                    let mut parsed: Vec<String> = Vec::new();
                    let mut t: usize = 0;
                    while t < tokenized_entries.len()
                        invariant
                            t <= tokenized_entries@.len(),
                            parsed@.len() == t,
                            forall|m: int| 0 <= m < t ==> (#[trigger] parsed@[m])@
                                == tokenized_entries@[m]@,
                        decreases tokenized_entries@.len() - t,
                    {
                        parsed.push(tokenized_entries[t].clone());
                        t += 1;
                    }
                    let mut requested: Vec<String> = Vec::new();
                    let mut t2: usize = 0;
                    while t2 < sought_names.len()
                        invariant
                            t2 <= sought_names@.len(),
                            requested@.len() == t2,
                            forall|m: int| 0 <= m < t2 ==> (#[trigger] requested@[m])@
                                == sought_names@[m]@,
                        decreases sought_names@.len() - t2,
                    {
                        requested.push(sought_names[t2].clone());
                        t2 += 1;
                    }
                    proof {
                        assert(names_view(parsed@) =~= headerv);
                        assert(names_view(requested@) =~= soughtv);
                    }
                    return Err(ParseError::FieldsNotFoundInHeader { parsed, requested });
                },
            }
        }
        i += 1;
    }
    proof {
        assert(all_sought_in_header(headerv, soughtv));
        let expect = resolve_spec(headerv, soughtv, schema@)->Ok_0;
        assert(indices_view(out@) =~= expect);
        lemma_last_occurrence_bound(headerv, soughtv);
        assert(indices_bounded(indices_view(out@), tokenized_entries@.len() as int));
    }
    Ok(out)
}

/// Every resolved position lies inside the header.
proof fn lemma_last_occurrence_bound(header: Seq<Seq<char>>, sought: Seq<Seq<char>>)
    ensures
        forall|name: Seq<char>| #[trigger] header_contains(header, name) ==> 0 <= last_occurrence(
            header,
            name,
        ) < header.len(),
{
    assert forall|name: Seq<char>| #[trigger] header_contains(header, name) implies 0
        <= last_occurrence(header, name) < header.len() by {
        lemma_last_occurrence(header, name);
    }
}

/// The model of a `DsvParser`.
#[verifier::ext_equal]
pub struct DsvParserS {
    pub settings: DsvSettingsS,
    pub schema: Seq<(Seq<char>, InnerSchemaFieldS)>,
    pub header: Seq<Seq<char>>,
    pub metadata: ValueS,
    pub key_idx: Option<Seq<DsvColumnIndexS>>,
    pub value_idx: Seq<DsvColumnIndexS>,
    pub header_read: bool,
}

/// The delimited parser. It is stateful: the first non-empty record of each
/// source is taken as the header, and every later record is read through
/// the positions the header bound.
#[derive(Debug, PartialEq, Eq)]
pub struct DsvParser {
    pub settings: DsvSettings,
    pub schema: Schema,
    pub header: Vec<String>,
    pub metadata_column_value: Value,
    pub key_column_indices: Option<Vec<DsvColumnIndex>>,
    pub value_column_indices: Vec<DsvColumnIndex>,
    pub dsv_header_read: bool,
}

impl View for DsvParser {
    type V = DsvParserS;

    open spec fn view(&self) -> DsvParserS {
        DsvParserS {
            settings: self.settings@,
            schema: self.schema@,
            header: strs_view(self.header@),
            metadata: self.metadata_column_value@,
            key_idx: match self.key_column_indices {
                Some(ref idx) => Some(indices_view(idx@)),
                None => None,
            },
            value_idx: indices_view(self.value_column_indices@),
            header_read: self.dsv_header_read,
        }
    }
}

/// The per-field results of reading one record through the bound columns:
/// a bound position coerces its token under its schema field (named after
/// the header column at that position), the metadata sentinel yields the
/// cached metadata value.
pub open spec fn values_by_indices_spec(
    tokens: Seq<Seq<char>>,
    indices: Seq<DsvColumnIndexS>,
    header: Seq<Seq<char>>,
    meta: ValueS,
) -> Seq<Result<ValueS, ParseErrorS>> {
    Seq::new(
        indices.len(),
        |i: int|
            match indices[i] {
                DsvColumnIndexS::IndexWithSchema(k, f) => parse_with_type_spec(
                    tokens[k],
                    f,
                    header[k],
                ),
                DsvColumnIndexS::Metadata => Ok(meta),
            },
    )
}

/// How one header record changes the parser: both column sets resolve, the
/// header is stored and marked read; on failure nothing changes.
pub open spec fn dsv_header_spec(p: DsvParserS, toks: Seq<Seq<char>>) -> Result<
    DsvParserS,
    ParseErrorS,
> {
    let keyres = match p.settings.key_column_names {
        Some(names) => Some(resolve_spec(toks, names, p.schema)),
        None => None,
    };
    match keyres {
        Some(Err(e)) => Err(e),
        _ => match resolve_spec(toks, p.settings.value_column_names, p.schema) {
            Err(e) => Err(e),
            Ok(vidx) => Ok(
                DsvParserS {
                    header: toks,
                    header_read: true,
                    key_idx: match keyres {
                        Some(Ok(kidx)) => Some(kidx),
                        _ => None,
                    },
                    value_idx: vidx,
                    ..p
                },
            ),
        },
    }
}

/// Whether every bound position of the parser lies below `n`.
pub open spec fn dsv_row_long_enough(p: DsvParserS, n: int) -> bool {
    &&& match p.key_idx {
        Some(idx) => indices_bounded(idx, n),
        None => true,
    }
    &&& indices_bounded(p.value_idx, n)
}

/// How the delimited parser reads one tokenized record: the lone commit
/// token advances time; the first record binds the header; a record too
/// short for a bound position fails; otherwise key and value fields are
/// read through the bound columns and wrapped as an insertion or deletion.
pub open spec fn dsv_tokens_spec(
    p: DsvParserS,
    ev: DataEventType,
    toks: Seq<Seq<char>>,
) -> (DsvParserS, Result<Seq<EventWithErrorsS>, ParseErrorS>) {
    if toks.len() == 1 && toks[0] == commit_text() {
        (p, Ok(seq![EventWithErrorsS::AdvanceTime]))
    } else if !p.header_read {
        match dsv_header_spec(p, toks) {
            Ok(p2) => (p2, Ok(Seq::empty())),
            Err(e) => (p, Err(e)),
        }
    } else if !dsv_row_long_enough(p, toks.len() as int) {
        (p, Err(ParseErrorS::UnexpectedNumberOfCsvTokens(toks.len() as int)))
    } else {
        let key = match p.key_idx {
            Some(idx) => Some(
                clean_row_spec(
                    ErrorRemovalLogic::FailOnError,
                    values_by_indices_spec(toks, idx, p.header, p.metadata),
                ),
            ),
            None => None,
        };
        let row = values_by_indices_spec(toks, p.value_idx, p.header, p.metadata);
        let event = if ev == DataEventType::Insert {
            EventWithErrorsS::Insert(key, row)
        } else {
            EventWithErrorsS::Delete(key, row)
        };
        (p, Ok(seq![event]))
    }
}

/// How the delimited parser reads one raw line: UTF-8 decoded and trimmed;
/// an empty line is skipped, the commit marker advances time, anything else
/// splits on the separator and is read as a tokenized record.
pub open spec fn dsv_bytes_spec(p: DsvParserS, ev: DataEventType, bytes: Seq<u8>) -> (
    DsvParserS,
    Result<Seq<EventWithErrorsS>, ParseErrorS>,
) {
    if !valid_utf8(bytes) {
        (p, Err(ParseErrorS::Utf8DecodeFailed))
    } else {
        let line = trim_spec(decode_utf8(bytes));
        if line.len() == 0 {
            (p, Ok(Seq::empty()))
        } else if line == commit_text() {
            (p, Ok(seq![EventWithErrorsS::AdvanceTime]))
        } else {
            dsv_tokens_spec(p, ev, split_text(line, p.settings.separator))
        }
    }
}

/// How the delimited parser reads one reader context.
pub open spec fn dsv_parse_spec(p: DsvParserS, data: ReaderContextS) -> (
    DsvParserS,
    Result<Seq<EventWithErrorsS>, ParseErrorS>,
) {
    match data {
        ReaderContextS::RawBytes(ev, bytes) => dsv_bytes_spec(p, ev, bytes),
        ReaderContextS::TokenizedEntries(ev, toks) => dsv_tokens_spec(p, ev, toks),
        ReaderContextS::KeyValue(_k, v) => match v {
            Some(bytes) => dsv_bytes_spec(p, DataEventType::Insert, bytes),
            None => (p, Err(ParseErrorS::EmptyKafkaPayload)),
        },
        ReaderContextS::Diff(_, _, _) => (p, Err(ParseErrorS::UnsupportedReaderContext)),
        ReaderContextS::Empty => (p, Ok(Seq::empty())),
    }
}

impl DsvParser {
    /// Whether every non-metadata configured name is in the schema and,
    /// once the header is read, the bound columns match the configuration
    /// and lie inside the stored header.
    pub open spec fn wf_spec(p: DsvParserS) -> bool {
        &&& all_fields_in_schema(p.settings.key_column_names, p.settings.value_column_names, p.schema)
        &&& (p.header_read ==> {
            &&& p.value_idx.len() == p.settings.value_column_names.len()
            &&& indices_bounded(p.value_idx, p.header.len() as int)
            &&& match p.key_idx {
                Some(idx) => p.settings.key_column_names is Some && indices_bounded(
                    idx,
                    p.header.len() as int,
                ),
                None => p.settings.key_column_names is None,
            }
        })
    }

    /// Builds a delimited parser; fails with `FieldNotInSchema` when a
    /// configured column name is missing from the schema.
    pub fn new(settings: DsvSettings, schema: Schema) -> (r: Result<DsvParser, ParseError>)
        ensures
            r matches Ok(p) ==> p.wf() && p.settings@ == settings@ && p@.schema == schema@
                && !p@.header_read && p@.metadata == ValueS::Null,
            r is Ok <==> all_fields_in_schema(
                settings@.key_column_names,
                settings@.value_column_names,
                schema@,
            ),
            r matches Err(e) ==> e@ is FieldNotInSchema,
    {
        match ensure_all_fields_in_schema(
            &settings.key_column_names,
            &settings.value_column_names,
            &schema,
        ) {
            Ok(()) => Ok(DsvParser {
                settings,
                schema,
                metadata_column_value: Value::Null,
                header: Vec::new(),
                key_column_indices: None,
                value_column_indices: Vec::new(),
                dsv_header_read: false,
            }),
            Err(e) => Err(e),
        }
    }

    /// Binds the column positions from a header record, per
    /// `dsv_header_spec`.
    fn parse_dsv_header(&mut self, tokenized_entries: &Vec<String>) -> (r: Result<(), ParseError>)
        requires
            old(self).wf(),
            !old(self)@.header_read,
        ensures
            final(self).wf(),
            final(self)@.settings == old(self)@.settings,
            final(self)@.schema == old(self)@.schema,
            final(self)@.metadata == old(self)@.metadata,
            match r {
                Ok(()) => dsv_header_spec(old(self)@, strs_view(tokenized_entries@)) == Ok::<
                    DsvParserS,
                    ParseErrorS,
                >(final(self)@),
                Err(e) => dsv_header_spec(old(self)@, strs_view(tokenized_entries@)) == Err::<
                    DsvParserS,
                    ParseErrorS,
                >(e@) && final(self)@ == old(self)@,
            },
    {
        let key_idx: Option<Vec<DsvColumnIndex>> = match &self.settings.key_column_names {
            Some(names) => {
                proof {
                    assert(names_all_in_schema(names_view(names@), self.schema@));
                    assert forall|i: int| 0 <= i < names@.len() implies (names_view(names@)[i]
                        == metadata_name() || schema_contains(
                        self.schema@,
                        names_view(names@)[i],
                    )) by {}
                }
                match column_indices_by_names(tokenized_entries, names, &self.schema) {
                    Ok(idx) => Some(idx),
                    Err(e) => {
                        return Err(e);
                    },
                }
            },
            None => None,
        };
        proof {
            assert(names_all_in_schema(
                names_view(self.settings.value_column_names@),
                self.schema@,
            ));
        }
        let value_idx = match column_indices_by_names(
            tokenized_entries,
            &self.settings.value_column_names,
            &self.schema,
        ) {
            Ok(idx) => idx,
            Err(e) => {
                return Err(e);
            },
        };
        let mut header: Vec<String> = Vec::new();
        let mut t: usize = 0;
        while t < tokenized_entries.len()
            invariant
                t <= tokenized_entries@.len(),
                header@.len() == t,
                forall|m: int| 0 <= m < t ==> (#[trigger] header@[m])@ == tokenized_entries@[m]@,
            decreases tokenized_entries@.len() - t,
        {
            header.push(tokenized_entries[t].clone());
            t += 1;
        }
        proof {
            assert(strs_view(header@) =~= strs_view(tokenized_entries@));
        }
        self.key_column_indices = key_idx;
        self.value_column_indices = value_idx;
        self.header = header;
        self.dsv_header_read = true;
        Ok(())
    }

    /// Reads one record through the bound columns, per
    /// `values_by_indices_spec`.
    fn values_by_indices(&self, tokens: &Vec<String>, indices: &Vec<DsvColumnIndex>) -> (r:
        ValueFieldsWithErrors)
        requires
            indices_bounded(indices_view(indices@), tokens@.len() as int),
            indices_bounded(indices_view(indices@), self@.header.len() as int),
        ensures
            field_results_view(r@) =~= values_by_indices_spec(
                strs_view(tokens@),
                indices_view(indices@),
                self@.header,
                self@.metadata,
            ),
    {
        let mut out: ValueFieldsWithErrors = Vec::new();
        let mut i: usize = 0;
        while i < indices.len()
            invariant
                indices_bounded(indices_view(indices@), tokens@.len() as int),
                indices_bounded(indices_view(indices@), self@.header.len() as int),
                i <= indices@.len(),
                out@.len() == i,
                forall|k: int| 0 <= k < i ==> field_results_view(out@)[k]
                    == values_by_indices_spec(
                    strs_view(tokens@),
                    indices_view(indices@),
                    self@.header,
                    self@.metadata,
                )[k],
            decreases indices@.len() - i,
        {
            proof {
                assert(indices_view(indices@)[i as int] == indices@[i as int]@);
            }
            let ghost expect = values_by_indices_spec(
                strs_view(tokens@),
                indices_view(indices@),
                self@.header,
                self@.metadata,
            )[i as int];
            let item: crate::events::FieldResult = match &indices[i] {
                DsvColumnIndex::IndexWithSchema(k, f) => {
                    proof {
                        assert(index_bounded(indices_view(indices@)[i as int], tokens@.len() as int));
                        assert(index_bounded(
                            indices_view(indices@)[i as int],
                            self@.header.len() as int,
                        ));
                        assert(strs_view(tokens@)[*k as int] == tokens@[*k as int]@);
                        assert(self@.header[*k as int] == self.header@[*k as int]@);
                    }
                    let it = parse_with_type(tokens[*k].as_str(), f, self.header[*k].as_str());
                    proof {
                        assert(crate::events::field_result_view(it) == expect);
                    }
                    it
                },
                DsvColumnIndex::Metadata => {
                    let it: crate::events::FieldResult = Ok(
                        self.metadata_column_value.duplicate(),
                    );
                    proof {
                        assert(crate::events::field_result_view(it) == expect);
                    }
                    it
                },
            };
            let ghost out0 = out@;
            out.push(item);
            proof {
                let full = values_by_indices_spec(
                    strs_view(tokens@),
                    indices_view(indices@),
                    self@.header,
                    self@.metadata,
                );
                assert(out@ == out0.push(item));
                assert forall|k: int| 0 <= k < i + 1 implies field_results_view(out@)[k]
                    == full[k] by {
                    assert(field_results_view(out@)[k] == crate::events::field_result_view(
                        out@[k],
                    ));
                    if k < i {
                        assert(out@[k] == out0[k]);
                        assert(field_results_view(out0)[k] == crate::events::field_result_view(
                            out0[k],
                        ));
                    } else {
                        assert(out@[k] == item);
                    }
                }
            }
            i += 1;
        }
        proof {
            assert(field_results_view(out@).len() == indices@.len());
        }
        out
    }

    /// Reads one tokenized record, per `dsv_tokens_spec`.
    fn parse_tokenized_entries(&mut self, event: DataEventType, tokens: &Vec<String>) -> (r: Result<
        Vec<ParsedEventWithErrors>,
        ParseError,
    >)
        requires
            old(self).wf(),
            event != DataEventType::Upsert,
        ensures
            final(self).wf(),
            final(self)@.settings == old(self)@.settings,
            final(self)@.schema == old(self)@.schema,
            final(self)@.metadata == old(self)@.metadata,
            ({
                let (p2, res) = dsv_tokens_spec(old(self)@, event, strs_view(tokens@));
                &&& final(self)@ == p2
                &&& match r {
                    Ok(evs) => res == Ok::<Seq<EventWithErrorsS>, ParseErrorS>(events_view(evs@)),
                    Err(e) => res == Err::<Seq<EventWithErrorsS>, ParseErrorS>(e@),
                }
            }),
    {
        let ghost toksv = strs_view(tokens@);
        if tokens.len() == 1 && str_eq(tokens[0].as_str(), "*COMMIT*") {
            proof {
                assert(toksv[0] == tokens@[0]@);
            }
            let mut evs: Vec<ParsedEventWithErrors> = Vec::new();
            evs.push(ParsedEventWithErrors::AdvanceTime);
            proof {
                assert(events_view(evs@) =~= seq![EventWithErrorsS::AdvanceTime]);
            }
            return Ok(evs);
        }
        proof {
            if toksv.len() == 1 && toksv[0] == commit_text() {
                assert(tokens@[0]@ == commit_text());
            }
        }
        if !self.dsv_header_read {
            match self.parse_dsv_header(tokens) {
                Ok(()) => {
                    let evs: Vec<ParsedEventWithErrors> = Vec::new();
                    proof {
                        assert(events_view(evs@) =~= Seq::<EventWithErrorsS>::empty());
                    }
                    return Ok(evs);
                },
                Err(e) => {
                    return Err(e);
                },
            }
        }
        // Check that every bound position fits in this record.
        let mut long_enough = true;
        if let Some(indices) = &self.key_column_indices {
            let mut i: usize = 0;
            while i < indices.len()
                invariant
                    self.key_column_indices == Some(*indices),
                    i <= indices@.len(),
                    long_enough == indices_bounded(
                        indices_view(indices@).subrange(0, i as int),
                        tokens@.len() as int,
                    ),
                decreases indices@.len() - i,
            {
                proof {
                    assert(indices_view(indices@).subrange(0, i + 1).drop_last() =~= indices_view(
                        indices@,
                    ).subrange(0, i as int));
                    assert(indices_view(indices@).subrange(0, i + 1).last() == indices@[i as int]@);
                    lemma_bounded_push(
                        indices_view(indices@).subrange(0, i as int),
                        indices@[i as int]@,
                        tokens@.len() as int,
                    );
                }
                match &indices[i] {
                    DsvColumnIndex::IndexWithSchema(k, _) => {
                        if *k >= tokens.len() {
                            long_enough = false;
                        }
                    },
                    DsvColumnIndex::Metadata => {},
                }
                i += 1;
            }
            proof {
                assert(indices_view(indices@).subrange(0, indices@.len() as int) =~= indices_view(
                    indices@,
                ));
            }
        }
        {
            let indices = &self.value_column_indices;
            let mut i: usize = 0;
            while i < indices.len()
                invariant
                    *indices == self.value_column_indices,
                    i <= indices@.len(),
                    (long_enough && i == 0) ==> (match self@.key_idx {
                        Some(kidx) => indices_bounded(kidx, tokens@.len() as int),
                        None => true,
                    }),
                    i > 0 ==> (long_enough ==> (match self@.key_idx {
                        Some(kidx) => indices_bounded(kidx, tokens@.len() as int),
                        None => true,
                    }) && indices_bounded(
                        indices_view(indices@).subrange(0, i as int),
                        tokens@.len() as int,
                    )),
                    i > 0 ==> (((match self@.key_idx {
                        Some(kidx) => indices_bounded(kidx, tokens@.len() as int),
                        None => true,
                    }) && indices_bounded(
                        indices_view(indices@).subrange(0, i as int),
                        tokens@.len() as int,
                    )) ==> long_enough),
                    i == 0 ==> (long_enough == match self@.key_idx {
                        Some(kidx) => indices_bounded(kidx, tokens@.len() as int),
                        None => true,
                    }),
                decreases indices@.len() - i,
            {
                proof {
                    assert(indices_view(indices@).subrange(0, i + 1).drop_last() =~= indices_view(
                        indices@,
                    ).subrange(0, i as int));
                    assert(indices_view(indices@).subrange(0, i + 1).last() == indices@[i as int]@);
                    lemma_bounded_push(
                        indices_view(indices@).subrange(0, i as int),
                        indices@[i as int]@,
                        tokens@.len() as int,
                    );
                    if i == 0 {
                        assert(indices_view(indices@).subrange(0, 0) =~= Seq::<
                            DsvColumnIndexS,
                        >::empty());
                    }
                }
                match &indices[i] {
                    DsvColumnIndex::IndexWithSchema(k, _) => {
                        if *k >= tokens.len() {
                            long_enough = false;
                        }
                    },
                    DsvColumnIndex::Metadata => {},
                }
                i += 1;
            }
            proof {
                assert(indices_view(indices@).subrange(0, indices@.len() as int) =~= indices_view(
                    indices@,
                ));
                if indices@.len() == 0 {
                    assert(indices_view(indices@).subrange(0, 0) =~= Seq::<
                        DsvColumnIndexS,
                    >::empty());
                }
            }
        }
        proof {
            assert(long_enough == dsv_row_long_enough(self@, tokens@.len() as int));
        }
        if !long_enough {
            return Err(ParseError::UnexpectedNumberOfCsvTokens(tokens.len()));
        }
        let key: crate::events::KeyFieldsWithErrors = match &self.key_column_indices {
            Some(indices) => {
                let row = self.values_by_indices(tokens, indices);
                Some(clean_row(ErrorRemovalLogic::FailOnError, row))
            },
            None => None,
        };
        let row = self.values_by_indices(tokens, &self.value_column_indices);
        let ev = match event {
            DataEventType::Insert => ParsedEventWithErrors::Insert((key, row)),
            _ => ParsedEventWithErrors::Delete((key, row)),
        };
        let mut evs: Vec<ParsedEventWithErrors> = Vec::new();
        evs.push(ev);
        proof {
            let (p2, res) = dsv_tokens_spec(old(self)@, event, toksv);
            assert(events_view(evs@) =~= seq![events_view(evs@)[0]]);
            assert(res == Ok::<Seq<EventWithErrorsS>, ParseErrorS>(events_view(evs@)));
        }
        Ok(evs)
    }

    /// Reads one raw line, per `dsv_bytes_spec`.
    fn parse_bytes_simple(&mut self, event: DataEventType, raw_bytes: &Vec<u8>) -> (r: Result<
        Vec<ParsedEventWithErrors>,
        ParseError,
    >)
        requires
            old(self).wf(),
            event != DataEventType::Upsert,
        ensures
            final(self).wf(),
            final(self)@.settings == old(self)@.settings,
            final(self)@.schema == old(self)@.schema,
            final(self)@.metadata == old(self)@.metadata,
            ({
                let (p2, res) = dsv_bytes_spec(old(self)@, event, raw_bytes@);
                &&& final(self)@ == p2
                &&& match r {
                    Ok(evs) => res == Ok::<Seq<EventWithErrorsS>, ParseErrorS>(events_view(evs@)),
                    Err(e) => res == Err::<Seq<EventWithErrorsS>, ParseErrorS>(e@),
                }
            }),
    {
        let decoded = match crate::jsonio::utf8_to_string(raw_bytes) {
            Some(s) => s,
            None => {
                return Err(ParseError::Utf8DecodeFailed);
            },
        };
        let chars = str_chars(decoded.as_str());
        let line = trim_chars(&chars);
        if line.len() == 0 {
            let evs: Vec<ParsedEventWithErrors> = Vec::new();
            proof {
                assert(events_view(evs@) =~= Seq::<EventWithErrorsS>::empty());
            }
            return Ok(evs);
        }
        if chars_eq_str(&line, "*COMMIT*") {
            let mut evs: Vec<ParsedEventWithErrors> = Vec::new();
            evs.push(ParsedEventWithErrors::AdvanceTime);
            proof {
                assert(events_view(evs@) =~= seq![EventWithErrorsS::AdvanceTime]);
            }
            return Ok(evs);
        }
        let tokens = split_on_char(&line, self.settings.separator);
        self.parse_tokenized_entries(event, &tokens)
    }
}

/// Appending one binding preserves or breaks boundedness exactly as the
/// binding does.
proof fn lemma_bounded_push(idx: Seq<DsvColumnIndexS>, x: DsvColumnIndexS, n: int)
    ensures
        indices_bounded(idx.push(x), n) <==> (indices_bounded(idx, n) && index_bounded(x, n)),
{
    if indices_bounded(idx, n) && index_bounded(x, n) {
        assert forall|i: int| 0 <= i < idx.push(x).len() implies index_bounded(
            #[trigger] idx.push(x)[i],
            n,
        ) by {
            if i < idx.len() {
                assert(idx.push(x)[i] == idx[i]);
            } else {
                assert(idx.push(x)[i] == x);
            }
        }
    }
    if indices_bounded(idx.push(x), n) {
        assert forall|i: int| 0 <= i < idx.len() implies index_bounded(#[trigger] idx[i], n) by {
            assert(idx.push(x)[i] == idx[i]);
        }
        assert(idx.push(x)[idx.len() as int] == x);
    }
}

impl Parser for DsvParser {
    open spec fn wf(&self) -> bool {
        DsvParser::wf_spec(self@)
    }

    open spec fn col_count(&self) -> int {
        self@.settings.value_column_names.len() as int
    }

    open spec fn session_spec(&self) -> SessionType {
        SessionType::Native
    }

    /// The delimited parser accepts no upsert tags and no pre-typed rows.
    open spec fn accepts(&self, data: &ReaderContext) -> bool {
        match data@ {
            ReaderContextS::RawBytes(ev, _) => ev != DataEventType::Upsert,
            ReaderContextS::TokenizedEntries(ev, _) => ev != DataEventType::Upsert,
            _ => true,
        }
    }

    open spec fn parse_post(
        &self,
        pre: &Self,
        data: &ReaderContext,
        r: &Result<Vec<ParsedEventWithErrors>, ParseError>,
    ) -> bool {
        let (p2, res) = dsv_parse_spec(pre@, data@);
        &&& self@ == p2
        &&& match *r {
            Ok(ref evs) => res == Ok::<Seq<EventWithErrorsS>, ParseErrorS>(events_view(evs@)),
            Err(ref e) => res == Err::<Seq<EventWithErrorsS>, ParseErrorS>(e@),
        }
    }

    /// A new source resets the header state and caches the new metadata.
    open spec fn source_post(&self, pre: &Self, metadata: &Option<JsonValue>) -> bool {
        &&& self@ == (DsvParserS {
            header_read: false,
            metadata: match *metadata {
                Some(ref j) => ValueS::Json(j@),
                None => pre@.metadata,
            },
            key_idx: self@.key_idx,
            value_idx: self@.value_idx,
            header: self@.header,
            ..pre@
        })
    }

    fn parse(&mut self, data: &ReaderContext) -> (r: Result<
        Vec<ParsedEventWithErrors>,
        ParseError,
    >) {
        let res = match data {
            ReaderContext::RawBytes(event, raw_bytes) => self.parse_bytes_simple(
                *event,
                raw_bytes,
            ),
            ReaderContext::TokenizedEntries(event, tokenized_entries) => self
                .parse_tokenized_entries(*event, tokenized_entries),
            ReaderContext::KeyValue(_key, value) => match value {
                Some(bytes) => self.parse_bytes_simple(DataEventType::Insert, bytes),
                None => Err(ParseError::EmptyKafkaPayload),
            },
            ReaderContext::Diff(_, _, _) => Err(ParseError::UnsupportedReaderContext),
            ReaderContext::Empty => {
                let evs: Vec<ParsedEventWithErrors> = Vec::new();
                proof {
                    assert(events_view(evs@) =~= Seq::<EventWithErrorsS>::empty());
                }
                Ok(evs)
            },
        };
        proof {
            lemma_dsv_width(old(self)@, *self, data@, &res);
        }
        res
    }

    fn on_new_source_started(&mut self, metadata: &Option<JsonValue>) {
        self.dsv_header_read = false;
        if let Some(j) = metadata {
            self.metadata_column_value = Value::Json(j.duplicate());
        }
    }

    fn column_count(&self) -> (r: usize) {
        self.settings.value_column_names.len()
    }

    fn session_type(&self) -> (r: SessionType) {
        SessionType::Native
    }
}

/// Every event one tokenized read yields carries exactly one value field
/// per configured value column.
proof fn lemma_tokens_width(p: DsvParserS, ev: DataEventType, toks: Seq<Seq<char>>)
    requires
        DsvParser::wf_spec(p),
    ensures
        ({
            let (p2, res) = dsv_tokens_spec(p, ev, toks);
            res matches Ok(evs) ==> forall|i: int| 0 <= i < evs.len() ==> (#[trigger] evs[i])
                .width_ok(p.settings.value_column_names.len() as int)
        }),
{
    let (p2, res) = dsv_tokens_spec(p, ev, toks);
    let n = p.settings.value_column_names.len() as int;
    if toks.len() == 1 && toks[0] == commit_text() {
        assert forall|i: int| 0 <= i < res->Ok_0.len() implies (#[trigger] res->Ok_0[i]).width_ok(
            n,
        ) by {
            assert(res->Ok_0[0] == EventWithErrorsS::AdvanceTime);
        }
    } else if !p.header_read {
    } else if !dsv_row_long_enough(p, toks.len() as int) {
    } else {
        let row = values_by_indices_spec(toks, p.value_idx, p.header, p.metadata);
        assert(row.len() == p.value_idx.len());
        assert(p.value_idx.len() == n);
        assert forall|i: int| 0 <= i < res->Ok_0.len() implies (#[trigger] res->Ok_0[i]).width_ok(
            n,
        ) by {}
    }
}

/// The same, for one raw line.
proof fn lemma_bytes_width(p: DsvParserS, ev: DataEventType, bytes: Seq<u8>)
    requires
        DsvParser::wf_spec(p),
    ensures
        ({
            let (p2, res) = dsv_bytes_spec(p, ev, bytes);
            res matches Ok(evs) ==> forall|i: int| 0 <= i < evs.len() ==> (#[trigger] evs[i])
                .width_ok(p.settings.value_column_names.len() as int)
        }),
{
    let n = p.settings.value_column_names.len() as int;
    if valid_utf8(bytes) {
        let line = trim_spec(decode_utf8(bytes));
        if line.len() == 0 {
        } else if line == commit_text() {
            let (p2, res) = dsv_bytes_spec(p, ev, bytes);
            assert forall|i: int| 0 <= i < res->Ok_0.len() implies (#[trigger] res->Ok_0[i])
                .width_ok(n) by {
                assert(res->Ok_0[0] == EventWithErrorsS::AdvanceTime);
            }
        } else {
            lemma_tokens_width(p, ev, split_text(line, p.settings.separator));
        }
    }
}

/// Every event a delimited parse yields carries exactly one value field per
/// configured value column.
proof fn lemma_dsv_width(
    pre: DsvParserS,
    post: DsvParser,
    data: ReaderContextS,
    r: &Result<Vec<ParsedEventWithErrors>, ParseError>,
)
    requires
        DsvParser::wf_spec(pre),
        DsvParser::wf_spec(post@),
        post@.settings == pre.settings,
        ({
            let (p2, res) = dsv_parse_spec(pre, data);
            &&& post@ == p2
            &&& match *r {
                Ok(ref evs) => res == Ok::<Seq<EventWithErrorsS>, ParseErrorS>(events_view(evs@)),
                Err(ref e) => res == Err::<Seq<EventWithErrorsS>, ParseErrorS>(e@),
            }
        }),
    ensures
        *r matches Ok(evs) ==> forall|i: int| 0 <= i < evs@.len() ==> (#[trigger] evs@[i])@
            .width_ok(post@.settings.value_column_names.len() as int),
{
    if let Ok(ref evs) = *r {
        let (p2, res) = dsv_parse_spec(pre, data);
        let nn = pre.settings.value_column_names.len() as int;
        assert(events_view(evs@).len() == evs@.len());
        assert forall|i: int| 0 <= i < evs@.len() implies (#[trigger] evs@[i])@.width_ok(
            nn,
        ) by {
            assert(events_view(evs@).len() == evs@.len());
            assert(events_view(evs@)[i] == evs@.map_values(|e: ParsedEventWithErrors| e@)[i]);
            assert(events_view(evs@)[i] == evs@[i]@);
            assert(res == Ok::<Seq<EventWithErrorsS>, ParseErrorS>(events_view(evs@)));
            assert(res->Ok_0[i] == evs@[i]@);
            match data {
                ReaderContextS::RawBytes(ev, bytes) => {
                    lemma_bytes_width(pre, ev, bytes);
                    assert(res == dsv_bytes_spec(pre, ev, bytes).1);
                    assert(dsv_bytes_spec(pre, ev, bytes).1->Ok_0[i].width_ok(nn));
                },
                ReaderContextS::TokenizedEntries(ev, toks) => {
                    lemma_tokens_width(pre, ev, toks);
                    assert(res == dsv_tokens_spec(pre, ev, toks).1);
                    assert(dsv_tokens_spec(pre, ev, toks).1->Ok_0[i].width_ok(nn));
                },
                ReaderContextS::KeyValue(_k, v) => {
                    if let Some(bytes) = v {
                        lemma_bytes_width(pre, DataEventType::Insert, bytes);
                        assert(res == dsv_bytes_spec(pre, DataEventType::Insert, bytes).1);
                        assert(dsv_bytes_spec(pre, DataEventType::Insert, bytes).1->Ok_0[i]
                            .width_ok(nn));
                    }
                },
                _ => {},
            }
        }
    }
}

/// The delimited formatter: the first call emits one header payload (the
/// value column names then `time` and `diff`, separator-joined); every call
/// emits one body payload (each value's display form then the time and the
/// diff, separator-joined).
#[derive(Debug, PartialEq, Eq)]
pub struct DsvFormatter {
    pub settings: DsvSettings,
    pub dsv_header_written: bool,
}

/// Separator-joined texts.
pub open spec fn sep_joined(texts: Seq<Seq<char>>, sep: char) -> Seq<char>
    decreases texts.len(),
{
    if texts.len() == 0 {
        Seq::empty()
    } else if texts.len() == 1 {
        texts[0]
    } else {
        sep_joined(texts.drop_last(), sep) + seq![sep] + texts.last()
    }
}

/// The header line of the delimited output.
pub open spec fn dsv_header_text(s: DsvSettingsS) -> Seq<char> {
    sep_joined(s.value_column_names + seq!["time"@, "diff"@], s.separator)
}

/// The body line of the delimited output for one event.
pub open spec fn dsv_line_text(s: DsvSettingsS, values: Seq<ValueS>, time: u64, diff: i64) -> Seq<
    char,
> {
    sep_joined(
        values.map_values(|v: ValueS| display_text(v)) + seq![
            dec_text(time as nat),
            int_text(diff as int),
        ],
        s.separator,
    )
}

impl DsvFormatter {
    /// Builds the formatter; no header has been written yet.
    pub fn new(settings: DsvSettings) -> (r: DsvFormatter)
        ensures
            r.settings@ == settings@,
            !r.dsv_header_written,
    {
        DsvFormatter { settings, dsv_header_written: false }
    }
}

impl Formatter for DsvFormatter {
    open spec fn wf(&self) -> bool {
        true
    }

    /// A wrong-width row fails and changes nothing; otherwise the header
    /// payload (first call only) and the body payload come back, the
    /// envelope carries no values, and the header is marked written.
    open spec fn format_post(
        &self,
        pre: &Self,
        key: Key,
        values: Seq<ValueS>,
        time: u64,
        diff: i64,
        r: &Result<FormatterContext, FormatterError>,
    ) -> bool {
        if values.len() != pre.settings@.value_column_names.len() {
            &&& *r matches Err(e) && e@ == crate::errors::FormatterErrorS::ColumnsValuesCountMismatch
            &&& self == pre
        } else {
            &&& *r matches Ok(ctx) && ctx@ == (FormatterContextS {
                payloads: if pre.dsv_header_written {
                    seq![encode_utf8(dsv_line_text(pre.settings@, values, time, diff))]
                } else {
                    seq![
                        encode_utf8(dsv_header_text(pre.settings@)),
                        encode_utf8(dsv_line_text(pre.settings@, values, time, diff)),
                    ]
                },
                key: key.id,
                values: Seq::empty(),
                time,
                diff,
            })
            &&& self.settings@ == pre.settings@
            &&& self.dsv_header_written
        }
    }

    fn format(&mut self, key: &Key, values: &Vec<Value>, time: u64, diff: i64) -> (r: Result<
        FormatterContext,
        FormatterError,
    >) {
        proof {
            crate::value::lemma_value_view_seq(values@);
        }
        if values.len() != self.settings.value_column_names.len() {
            return Err(FormatterError::ColumnsValuesCountMismatch);
        }
        let mut payloads: Vec<Vec<u8>> = Vec::new();
        if !self.dsv_header_written {
            let header = join_header(&self.settings);
            payloads.push(string_bytes(&header));
            self.dsv_header_written = true;
        }
        let line = join_line(&self.settings, values, time, diff);
        payloads.push(string_bytes(&line));
        let ctx = FormatterContext::new(payloads, *key, Vec::new(), time, diff);
        proof {
            assert(value_view_seq(Seq::<Value>::empty()) =~= Seq::<ValueS>::empty());
            if old(self).dsv_header_written {
                assert(ctx@.payloads =~= seq![
                    encode_utf8(dsv_line_text(old(self).settings@, value_view_seq(values@), time, diff)),
                ]);
            } else {
                assert(ctx@.payloads =~= seq![
                    encode_utf8(dsv_header_text(old(self).settings@)),
                    encode_utf8(dsv_line_text(old(self).settings@, value_view_seq(values@), time, diff)),
                ]);
            }
            assert(ctx@ =~= (FormatterContextS {
                payloads: if old(self).dsv_header_written {
                    seq![
                        encode_utf8(dsv_line_text(old(self).settings@, value_view_seq(values@), time, diff)),
                    ]
                } else {
                    seq![
                        encode_utf8(dsv_header_text(old(self).settings@)),
                        encode_utf8(dsv_line_text(old(self).settings@, value_view_seq(values@), time, diff)),
                    ]
                },
                key: key.id,
                values: Seq::empty(),
                time,
                diff,
            }));
        }
        Ok(ctx)
    }
}

/// Relies on str::as_bytes via vstd's model: the UTF-8 encoding of the
/// string's characters.
pub fn string_bytes(s: &String) -> (r: Vec<u8>)
    ensures
        r@ == encode_utf8(s@),
{
    let slice = s.as_str().as_bytes();
    let mut out: Vec<u8> = Vec::new();
    let mut i: usize = 0;
    while i < slice.len()
        invariant
            slice@ == encode_utf8(s@),
            i <= slice@.len(),
            out@ =~= slice@.subrange(0, i as int),
        decreases slice@.len() - i,
    {
        let b = slice[i];
        out.push(b);
        i += 1;
    }
    assert(out@ =~= slice@);
    out
}

/// Separator-joins the pieces.
pub(crate) fn join_strings(pieces: &Vec<String>, sep: char) -> (r: String)
    ensures
        r@ == sep_joined(strs_view(pieces@), sep),
{
    let mut out = String::new();
    let mut i: usize = 0;
    while i < pieces.len()
        invariant
            i <= pieces@.len(),
            out@ == sep_joined(strs_view(pieces@).subrange(0, i as int), sep),
        decreases pieces@.len() - i,
    {
        proof {
            assert(strs_view(pieces@)[i as int] == pieces@[i as int]@);
            assert(strs_view(pieces@).subrange(0, i + 1).drop_last() =~= strs_view(
                pieces@,
            ).subrange(0, i as int));
            assert(strs_view(pieces@).subrange(0, i + 1).last() == strs_view(pieces@)[i as int]);
            if i == 0 {
                assert(strs_view(pieces@).subrange(0, 0) =~= Seq::<Seq<char>>::empty());
            }
        }
        if i > 0 {
            crate::text::push_char(&mut out, sep);
        }
        out.append(pieces[i].as_str());
        i += 1;
    }
    proof {
        assert(strs_view(pieces@).subrange(0, pieces@.len() as int) =~= strs_view(pieces@));
    }
    out
}

/// The separator-joined header line.
fn join_header(settings: &DsvSettings) -> (r: String)
    ensures
        r@ == dsv_header_text(settings@),
{
    let mut pieces: Vec<String> = Vec::new();
    let names = &settings.value_column_names;
    let mut i: usize = 0;
    while i < names.len()
        invariant
            i <= names@.len(),
            pieces@.len() == i,
            forall|k: int| 0 <= k < i ==> (#[trigger] pieces@[k])@ == names@[k]@,
        decreases names@.len() - i,
    {
        pieces.push(names[i].clone());
        i += 1;
    }
    pieces.push(String::from_str("time"));
    pieces.push(String::from_str("diff"));
    let r = join_strings(&pieces, settings.separator);
    proof {
        assert(strs_view(pieces@) =~= settings@.value_column_names + seq!["time"@, "diff"@]);
    }
    r
}

/// The separator-joined body line for one event.
fn join_line(settings: &DsvSettings, values: &Vec<Value>, time: u64, diff: i64) -> (r: String)
    ensures
        r@ == dsv_line_text(settings@, value_view_seq(values@), time, diff),
{
    let ghost vs = value_view_seq(values@);
    proof {
        crate::value::lemma_value_view_seq(values@);
    }
    let mut pieces: Vec<String> = Vec::new();
    let mut i: usize = 0;
    while i < values.len()
        invariant
            vs == value_view_seq(values@),
            vs.len() == values@.len(),
            forall|k: int| 0 <= k < values@.len() ==> vs[k] == value_view(values@[k]),
            i <= values@.len(),
            pieces@.len() == i,
            forall|k: int| 0 <= k < i ==> (#[trigger] pieces@[k])@ == display_text(vs[k]),
        decreases values@.len() - i,
    {
        let piece = crate::jsontext::value_display_string(&values[i]);
        pieces.push(piece);
        i += 1;
    }
    pieces.push(crate::num::u64_to_string(time));
    pieces.push(crate::num::i64_to_string(diff));
    let r = join_strings(&pieces, settings.separator);
    proof {
        assert(strs_view(pieces@) =~= vs.map_values(|v: ValueS| display_text(v)) + seq![
            dec_text(time as nat),
            int_text(diff as int),
        ]);
    }
    r
}

} // verus!
