//! Typed, synchronous failures of the compilers, the marshaller and the
//! signer. Each carries the offending token, field or parameter where one
//! exists. None of them is retryable: each reports a statement or data
//! defect.

use vstd::prelude::*;

verus! {

#[derive(Debug, Clone, PartialEq)]
pub enum Error {
    /// A statement whose shape the dialect does not admit; carries the
    /// offending token or the keyword that was expected.
    MalformedQuery(String),
    /// A modifying statement that is not INSERT, UPDATE or DELETE.
    UnsupportedStatement,
    /// A clause the store cannot serve (JOIN, ORDER BY); carries the clause.
    UnsupportedClause(String),
    /// INSERT column and value counts differ: (columns, values).
    ColumnValueMismatch(usize, usize),
    /// A `$N` placeholder beyond the supplied parameters; carries `N`.
    ParameterOutOfRange(usize),
    /// UPDATE or DELETE without a usable WHERE clause.
    MissingWhereClause,
    /// A key column the statement must name but does not; carries its name.
    MissingKeyField(String),
    /// A WHERE predicate beyond equality on the two key columns.
    UnsupportedPredicate,
    /// A key value that is not a non-null string; carries the key's name.
    InvalidKeyType(String),
    /// A parameter with no literal syntax (binary); carries its 1-based index.
    UnsupportedParameterType(usize),
    /// A numeric value outside the wire type's range; carries the field name.
    NumericOverflow(String),
    /// A binary value whose base64 text does not decode; carries the field name.
    InvalidEncoding(String),
    /// An unrecognised wire type tag; carries the tag.
    UnsupportedType(String),
    /// A field whose wire type tag is required but absent; carries the field name.
    MissingTypeMetadata(String),
    /// An account key that is not valid base64.
    InvalidKey,
}

/// The mathematical view of an [`Error`]: text payloads as character
/// sequences, indices as unbounded integers.
pub enum ErrorView {
    MalformedQuery(Seq<char>),
    UnsupportedStatement,
    UnsupportedClause(Seq<char>),
    ColumnValueMismatch(int, int),
    ParameterOutOfRange(int),
    MissingWhereClause,
    MissingKeyField(Seq<char>),
    UnsupportedPredicate,
    InvalidKeyType(Seq<char>),
    UnsupportedParameterType(int),
    NumericOverflow(Seq<char>),
    InvalidEncoding(Seq<char>),
    UnsupportedType(Seq<char>),
    MissingTypeMetadata(Seq<char>),
    InvalidKey,
}

impl View for Error {
    type V = ErrorView;

    open spec fn view(&self) -> ErrorView {
        match self {
            Error::MalformedQuery(t) => ErrorView::MalformedQuery(t@),
            Error::UnsupportedStatement => ErrorView::UnsupportedStatement,
            Error::UnsupportedClause(t) => ErrorView::UnsupportedClause(t@),
            Error::ColumnValueMismatch(c, v) => ErrorView::ColumnValueMismatch(
                *c as int,
                *v as int,
            ),
            Error::ParameterOutOfRange(n) => ErrorView::ParameterOutOfRange(*n as int),
            Error::MissingWhereClause => ErrorView::MissingWhereClause,
            Error::MissingKeyField(t) => ErrorView::MissingKeyField(t@),
            Error::UnsupportedPredicate => ErrorView::UnsupportedPredicate,
            Error::InvalidKeyType(t) => ErrorView::InvalidKeyType(t@),
            Error::UnsupportedParameterType(n) => ErrorView::UnsupportedParameterType(*n as int),
            Error::NumericOverflow(t) => ErrorView::NumericOverflow(t@),
            Error::InvalidEncoding(t) => ErrorView::InvalidEncoding(t@),
            Error::UnsupportedType(t) => ErrorView::UnsupportedType(t@),
            Error::MissingTypeMetadata(t) => ErrorView::MissingTypeMetadata(t@),
            Error::InvalidKey => ErrorView::InvalidKey,
        }
    }
}

} // verus!
