//! Errors reported while parsing or compiling a filter.
use vstd::prelude::*;

verus! {

/// Why a filter could not be turned into a predicate.
#[derive(Debug, Clone, PartialEq, Eq)]
pub enum Error {
    /// The value does not read as the field's type.
    InvalidValue { field: String, accepted_type: String },
    /// The input stops following the grammar at this byte offset.
    ParseError { pos: usize },
    /// The field does not allow the operation (`equal` or `order`).
    UnsupportedOperation { field: String, required_operation: String },
    /// No field of this name is registered.
    UnknownField { field: String },
    /// No field takes part in the wildcard operation (`equal` or `order`).
    EmptyWildcardOperation { required_operation: String },
}

/// The mathematical model of an [`Error`].
pub enum ErrorView {
    InvalidValue { field: Seq<char>, accepted_type: Seq<char> },
    ParseError { pos: nat },
    UnsupportedOperation { field: Seq<char>, required_operation: Seq<char> },
    UnknownField { field: Seq<char> },
    EmptyWildcardOperation { required_operation: Seq<char> },
}

impl View for Error {
    type V = ErrorView;

    open spec fn view(&self) -> ErrorView {
        match self {
            Error::InvalidValue { field, accepted_type } => ErrorView::InvalidValue {
                field: field@,
                accepted_type: accepted_type@,
            },
            Error::ParseError { pos } => ErrorView::ParseError { pos: *pos as nat },
            Error::UnsupportedOperation { field, required_operation } =>
                ErrorView::UnsupportedOperation {
                    field: field@,
                    required_operation: required_operation@,
                },
            Error::UnknownField { field } => ErrorView::UnknownField { field: field@ },
            Error::EmptyWildcardOperation { required_operation } =>
                ErrorView::EmptyWildcardOperation { required_operation: required_operation@ },
        }
    }
}

/// The model of a result that carries a string.
pub open spec fn text_result(r: Result<String, Error>) -> Result<Seq<char>, ErrorView> {
    match r {
        Ok(s) => Ok(s@),
        Err(e) => Err(e@),
    }
}

/// The model of a result that may carry a string.
pub open spec fn optional_text_result(r: Result<Option<String>, Error>) -> Result<
    Option<Seq<char>>,
    ErrorView,
> {
    match r {
        Ok(Some(s)) => Ok(Some(s@)),
        Ok(None) => Ok(None),
        Err(e) => Err(e@),
    }
}

} // verus!
