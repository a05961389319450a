//! Error type shared by schema inference, document marshalling and the
//! read path. Each variant names one failure category; variants that point
//! at a concrete field or collection carry its name.

use vstd::prelude::*;

verus! {

/// One failure of inference, marshalling, reading or the engine.
#[derive(Debug, Clone, PartialEq)]
pub enum IndexError {
    /// Schema inference was handed a value that is not a mapping.
    InvalidRepresentation,
    /// Schema inference found a mapping key that is not a text value.
    NonStringKey,
    /// Schema inference found a value variant with no field-kind mapping.
    UnhandledValueKind,
    /// Document marshalling was handed a record that is not a mapping.
    DocParseNotRecord,
    /// Document marshalling found a record key that is not a text value.
    DocParseNonStringKey,
    /// A record key does not name any schema field.
    DocParseUnknownField { field: String },
    /// A record value is incompatible with the kind of its schema field.
    DocParseKindMismatch { field: String },
    /// A record holds the same key twice.
    DocParseDuplicateField { field: String },
    /// A retrieved document field carries no stored value.
    MissingFieldValue { collection: String, field: String },
    /// The engine rejected the query text.
    QueryParse { reason: String },
    /// Any other failure reported by the engine or its store.
    Engine { message: String, reason: String },
}

/// Mathematical image of an `IndexError`: strings become character sequences.
pub enum SpecIndexError {
    InvalidRepresentation,
    NonStringKey,
    UnhandledValueKind,
    DocParseNotRecord,
    DocParseNonStringKey,
    DocParseUnknownField { field: Seq<char> },
    DocParseKindMismatch { field: Seq<char> },
    DocParseDuplicateField { field: Seq<char> },
    MissingFieldValue { collection: Seq<char>, field: Seq<char> },
    QueryParse { reason: Seq<char> },
    Engine { message: Seq<char>, reason: Seq<char> },
}

impl View for IndexError {
    type V = SpecIndexError;

    open spec fn view(&self) -> SpecIndexError {
        match self {
            IndexError::InvalidRepresentation => SpecIndexError::InvalidRepresentation,
            IndexError::NonStringKey => SpecIndexError::NonStringKey,
            IndexError::UnhandledValueKind => SpecIndexError::UnhandledValueKind,
            IndexError::DocParseNotRecord => SpecIndexError::DocParseNotRecord,
            IndexError::DocParseNonStringKey => SpecIndexError::DocParseNonStringKey,
            IndexError::DocParseUnknownField { field } => SpecIndexError::DocParseUnknownField {
                field: field@,
            },
            IndexError::DocParseKindMismatch { field } => SpecIndexError::DocParseKindMismatch {
                field: field@,
            },
            IndexError::DocParseDuplicateField { field } => SpecIndexError::DocParseDuplicateField {
                field: field@,
            },
            IndexError::MissingFieldValue { collection, field } => SpecIndexError::MissingFieldValue {
                collection: collection@,
                field: field@,
            },
            IndexError::QueryParse { reason } => SpecIndexError::QueryParse { reason: reason@ },
            IndexError::Engine { message, reason } => SpecIndexError::Engine {
                message: message@,
                reason: reason@,
            },
        }
    }
}

impl IndexError {
    /// The short message of the two-part diagnostic.
    pub open spec fn spec_message(&self) -> Seq<char> {
        match self {
            IndexError::InvalidRepresentation => "Unable to create schema"@,
            IndexError::NonStringKey => "Unable to create schema"@,
            IndexError::UnhandledValueKind => "Unable to create schema"@,
            IndexError::DocParseNotRecord => "Unable to parse document"@,
            IndexError::DocParseNonStringKey => "Unable to parse document"@,
            IndexError::DocParseUnknownField { .. } => "Unable to parse document"@,
            IndexError::DocParseKindMismatch { .. } => "Unable to parse document"@,
            IndexError::DocParseDuplicateField { .. } => "Unable to parse document"@,
            IndexError::MissingFieldValue { collection, .. } => "Unable to jsonify: "@
                + collection@,
            IndexError::QueryParse { .. } => "Unable to parse query"@,
            IndexError::Engine { message, .. } => message@,
        }
    }

    /// The reason string of the two-part diagnostic.
    pub open spec fn spec_reason(&self) -> Seq<char> {
        match self {
            IndexError::InvalidRepresentation => "Invalid JSON"@,
            IndexError::NonStringKey => "keys were not string"@,
            IndexError::UnhandledValueKind => "Unhandled value types"@,
            IndexError::DocParseNotRecord => "the record is not a mapping"@,
            IndexError::DocParseNonStringKey => "keys were not string"@,
            IndexError::DocParseUnknownField { field } => "Field: "@ + field@
                + " is not in the schema"@,
            IndexError::DocParseKindMismatch { field } => "Field: "@ + field@
                + " does not match its declared kind"@,
            IndexError::DocParseDuplicateField { field } => "Field: "@ + field@
                + " appears more than once"@,
            IndexError::MissingFieldValue { field, .. } => "Field: "@ + field@
                + " does not have any value"@,
            IndexError::QueryParse { reason } => reason@,
            IndexError::Engine { reason, .. } => reason@,
        }
    }

    /// The short message of the two-part diagnostic.
    pub fn message(&self) -> (r: String)
        ensures
            r@ == self.spec_message(),
    {
        match self {
            IndexError::InvalidRepresentation => String::from_str("Unable to create schema"),
            IndexError::NonStringKey => String::from_str("Unable to create schema"),
            IndexError::UnhandledValueKind => String::from_str("Unable to create schema"),
            IndexError::DocParseNotRecord => String::from_str("Unable to parse document"),
            IndexError::DocParseNonStringKey => String::from_str("Unable to parse document"),
            IndexError::DocParseUnknownField { .. } => String::from_str(
                "Unable to parse document",
            ),
            IndexError::DocParseKindMismatch { .. } => String::from_str(
                "Unable to parse document",
            ),
            IndexError::DocParseDuplicateField { .. } => String::from_str(
                "Unable to parse document",
            ),
            IndexError::MissingFieldValue { collection, .. } => String::from_str(
                "Unable to jsonify: ",
            ).concat(collection.as_str()),
            IndexError::QueryParse { .. } => String::from_str("Unable to parse query"),
            IndexError::Engine { message, .. } => message.clone(),
        }
    }

    /// The reason string of the two-part diagnostic.
    pub fn reason(&self) -> (r: String)
        ensures
            r@ == self.spec_reason(),
    {
        match self {
            IndexError::InvalidRepresentation => String::from_str("Invalid JSON"),
            IndexError::NonStringKey => String::from_str("keys were not string"),
            IndexError::UnhandledValueKind => String::from_str("Unhandled value types"),
            IndexError::DocParseNotRecord => String::from_str("the record is not a mapping"),
            IndexError::DocParseNonStringKey => String::from_str("keys were not string"),
            IndexError::DocParseUnknownField { field } => String::from_str("Field: ").concat(
                field.as_str(),
            ).concat(" is not in the schema"),
            IndexError::DocParseKindMismatch { field } => String::from_str("Field: ").concat(
                field.as_str(),
            ).concat(" does not match its declared kind"),
            IndexError::DocParseDuplicateField { field } => String::from_str("Field: ").concat(
                field.as_str(),
            ).concat(" appears more than once"),
            IndexError::MissingFieldValue { field, .. } => String::from_str("Field: ").concat(
                field.as_str(),
            ).concat(" does not have any value"),
            IndexError::QueryParse { reason } => reason.clone(),
            IndexError::Engine { reason, .. } => reason.clone(),
        }
    }
}

} // verus!
