//! Error types of the codec layer, with their mathematical models.
//!
//! Two strata: record-level errors (`ParseError` values that travel inside
//! events, one per field or per event) and stream-level errors (returned from
//! constructors or whole `parse` calls).

use vstd::prelude::*;
use crate::value::{JsonS, JsonValue, Type, TypeS};

verus! {

/// The detail of a malformed change-data-capture envelope.
#[derive(Clone, Copy, Debug, PartialEq, Eq, Structural)]
pub enum DebeziumFormatError {
    OperationFieldMissing,
    NoPayloadAtTopLevel,
    IncorrectJsonRoot,
}

/// A record- or stream-level parse failure.
#[derive(Debug, PartialEq, Eq)]
pub enum ParseError {
    /// A configured column name is missing from a delimited header.
    FieldsNotFoundInHeader { parsed: Vec<String>, requested: Vec<String> },
    /// A raw token could not be coerced to the schema type.
    SchemaNotSatisfied { value: String, field_name: String, type_: Type, error: String },
    /// A delimited record is too short for a bound column index.
    UnexpectedNumberOfCsvTokens(usize),
    /// A JSON subtree could not be coerced to the schema type.
    FailedToParseFromJson { field_name: String, payload: JsonValue, type_: Type },
    /// A raw key/value line did not split into exactly two tokens.
    KeyValueTokensIncorrect(usize),
    /// A configured field is absent from the JSON payload.
    FailedToExtractJsonField { field_name: String, path: Option<String>, payload: JsonValue },
    /// The payload is not JSON at all.
    FailedToParseJson(String),
    /// The envelope does not follow the change-data-capture format.
    DebeziumFormatViolated(DebeziumFormatError),
    /// An unknown operation tag in a change-data-capture envelope.
    UnsupportedDebeziumOperation(String),
    /// A message arrived without the payload the parser needs.
    EmptyKafkaPayload,
    /// The reader context variant is not supported by this parser.
    UnsupportedReaderContext,
    /// The payload is not valid UTF-8.
    Utf8DecodeFailed,
    /// The schema type cannot be read from an external source.
    UnparsableType(Type),
    /// A key field failed to parse, poisoning the whole event.
    ErrorInKey(Box<ParseError>),
    /// No value was supplied and the schema declares no default.
    NoDefault { field_name: String },
    /// A configured field name does not appear in the schema.
    FieldNotInSchema { name: String, schema_keys: Vec<String> },
    /// The transport handed over a value it could not convert.
    ConversionFailed(String),
}

/// The model of a `ParseError`.
#[verifier::ext_equal]
pub enum ParseErrorS {
    FieldsNotFoundInHeader { parsed: Seq<Seq<char>>, requested: Seq<Seq<char>> },
    SchemaNotSatisfied { value: Seq<char>, field_name: Seq<char>, type_: TypeS, error: Seq<char> },
    UnexpectedNumberOfCsvTokens(int),
    FailedToParseFromJson { field_name: Seq<char>, payload: JsonS, type_: TypeS },
    KeyValueTokensIncorrect(int),
    FailedToExtractJsonField { field_name: Seq<char>, path: Option<Seq<char>>, payload: JsonS },
    FailedToParseJson(Seq<char>),
    DebeziumFormatViolated(DebeziumFormatError),
    UnsupportedDebeziumOperation(Seq<char>),
    EmptyKafkaPayload,
    UnsupportedReaderContext,
    Utf8DecodeFailed,
    UnparsableType(TypeS),
    ErrorInKey(Box<ParseErrorS>),
    NoDefault { field_name: Seq<char> },
    FieldNotInSchema { name: Seq<char>, schema_keys: Seq<Seq<char>> },
    ConversionFailed(Seq<char>),
}

/// The models of a sequence of strings.
pub open spec fn names_view(v: Seq<String>) -> Seq<Seq<char>> {
    v.map_values(|s: String| s@)
}

/// The model of a `ParseError`.
pub open spec fn parse_error_view(e: ParseError) -> ParseErrorS
    decreases e,
{
    match e {
        ParseError::FieldsNotFoundInHeader { parsed, requested } =>
            ParseErrorS::FieldsNotFoundInHeader {
                parsed: names_view(parsed@),
                requested: names_view(requested@),
            },
        ParseError::SchemaNotSatisfied { value, field_name, type_, error } =>
            ParseErrorS::SchemaNotSatisfied {
                value: value@,
                field_name: field_name@,
                type_: type_@,
                error: error@,
            },
        ParseError::UnexpectedNumberOfCsvTokens(n) =>
            ParseErrorS::UnexpectedNumberOfCsvTokens(n as int),
        ParseError::FailedToParseFromJson { field_name, payload, type_ } =>
            ParseErrorS::FailedToParseFromJson {
                field_name: field_name@,
                payload: payload@,
                type_: type_@,
            },
        ParseError::KeyValueTokensIncorrect(n) => ParseErrorS::KeyValueTokensIncorrect(n as int),
        ParseError::FailedToExtractJsonField { field_name, path, payload } =>
            ParseErrorS::FailedToExtractJsonField {
                field_name: field_name@,
                path: match path {
                    Some(p) => Some(p@),
                    None => None,
                },
                payload: payload@,
            },
        ParseError::FailedToParseJson(s) => ParseErrorS::FailedToParseJson(s@),
        ParseError::DebeziumFormatViolated(d) => ParseErrorS::DebeziumFormatViolated(d),
        ParseError::UnsupportedDebeziumOperation(s) =>
            ParseErrorS::UnsupportedDebeziumOperation(s@),
        ParseError::EmptyKafkaPayload => ParseErrorS::EmptyKafkaPayload,
        ParseError::UnsupportedReaderContext => ParseErrorS::UnsupportedReaderContext,
        ParseError::Utf8DecodeFailed => ParseErrorS::Utf8DecodeFailed,
        ParseError::UnparsableType(t) => ParseErrorS::UnparsableType(t@),
        ParseError::ErrorInKey(inner) => ParseErrorS::ErrorInKey(Box::new(parse_error_view(*inner))),
        ParseError::NoDefault { field_name } => ParseErrorS::NoDefault { field_name: field_name@ },
        ParseError::FieldNotInSchema { name, schema_keys } => ParseErrorS::FieldNotInSchema {
            name: name@,
            schema_keys: names_view(schema_keys@),
        },
        ParseError::ConversionFailed(s) => ParseErrorS::ConversionFailed(s@),
    }
}

impl View for ParseError {
    type V = ParseErrorS;

    open spec fn view(&self) -> ParseErrorS {
        parse_error_view(*self)
    }
}

/// A formatting failure.
#[derive(Debug, PartialEq, Eq)]
pub enum FormatterError {
    ColumnsValuesCountMismatch,
    IncorrectColumnIndex,
    TypeNonJsonSerializable { type_: Type },
    ErrorValueNonJsonSerializable,
    UnsupportedValueType,
}

/// The model of a `FormatterError`.
#[verifier::ext_equal]
pub enum FormatterErrorS {
    ColumnsValuesCountMismatch,
    IncorrectColumnIndex,
    TypeNonJsonSerializable { type_: TypeS },
    ErrorValueNonJsonSerializable,
    UnsupportedValueType,
}

impl View for FormatterError {
    type V = FormatterErrorS;

    open spec fn view(&self) -> FormatterErrorS {
        match *self {
            FormatterError::ColumnsValuesCountMismatch =>
                FormatterErrorS::ColumnsValuesCountMismatch,
            FormatterError::IncorrectColumnIndex => FormatterErrorS::IncorrectColumnIndex,
            FormatterError::TypeNonJsonSerializable { ref type_ } =>
                FormatterErrorS::TypeNonJsonSerializable { type_: type_@ },
            FormatterError::ErrorValueNonJsonSerializable =>
                FormatterErrorS::ErrorValueNonJsonSerializable,
            FormatterError::UnsupportedValueType => FormatterErrorS::UnsupportedValueType,
        }
    }
}

/// A configuration failure of the SQL snapshot formatter.
#[derive(Debug, PartialEq, Eq)]
pub enum PsqlSnapshotFormatterError {
    RepeatedValueField(String),
    UnknownKey(String),
}

/// The model of a `PsqlSnapshotFormatterError`.
#[verifier::ext_equal]
pub enum PsqlSnapshotFormatterErrorS {
    RepeatedValueField(Seq<char>),
    UnknownKey(Seq<char>),
}

impl View for PsqlSnapshotFormatterError {
    type V = PsqlSnapshotFormatterErrorS;

    open spec fn view(&self) -> PsqlSnapshotFormatterErrorS {
        match *self {
            PsqlSnapshotFormatterError::RepeatedValueField(ref s) =>
                PsqlSnapshotFormatterErrorS::RepeatedValueField(s@),
            PsqlSnapshotFormatterError::UnknownKey(ref s) =>
                PsqlSnapshotFormatterErrorS::UnknownKey(s@),
        }
    }
}

/// A transport-side conversion failure attached to a pre-typed value.
#[derive(Clone, Debug, PartialEq, Eq)]
pub struct ConversionError {
    pub message: String,
}

impl View for ConversionError {
    type V = Seq<char>;

    open spec fn view(&self) -> Seq<char> {
        self.message@
    }
}

} // verus!
