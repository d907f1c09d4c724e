//! What the application answers when a request cannot be served.
use vstd::prelude::*;

verus! {

/// The kind of failure, as an HTTP status.
#[derive(Clone, Copy, Debug, PartialEq, Eq, Structural)]
pub enum Status {
    BadRequest,
    NotFound,
    InternalServerError,
    BadGateway,
}

impl Status {
    /// The HTTP status code.
    pub open spec fn spec_code(self) -> u16 {
        match self {
            Status::BadRequest => 400,
            Status::NotFound => 404,
            Status::InternalServerError => 500,
            Status::BadGateway => 502,
        }
    }

    /// The HTTP status code.
    pub fn code(self) -> (r: u16)
        ensures
            r == self.spec_code(),
    {
        match self {
            Status::BadRequest => 400,
            Status::NotFound => 404,
            Status::InternalServerError => 500,
            Status::BadGateway => 502,
        }
    }
}

/// A failure with a message for the user.
#[derive(Debug, PartialEq)]
pub struct AppError {
    pub status: Status,
    pub detail: String,
}

/// The model of a failure.
pub struct ErrorView {
    pub status: Status,
    pub detail: Seq<char>,
}

impl View for AppError {
    type V = ErrorView;

    open spec fn view(&self) -> ErrorView {
        ErrorView { status: self.status, detail: self.detail@ }
    }
}

/// The model of a result that may be a failure.
pub open spec fn result_view<T: View>(r: Result<T, AppError>) -> Result<T::V, ErrorView> {
    match r {
        Ok(x) => Ok(x@),
        Err(e) => Err(e@),
    }
}

impl AppError {
    /// A failure of this kind.
    pub fn new(status: Status, detail: &str) -> (r: AppError)
        ensures
            r@ == (ErrorView { status, detail: detail@ }),
    {
        AppError { status, detail: detail.to_owned() }
    }

    /// The request makes no sense.
    pub fn bad_request(detail: &str) -> (r: AppError)
        ensures
            r@ == bad_request(detail@),
    {
        AppError::new(Status::BadRequest, detail)
    }

    /// There is no such thing.
    pub fn not_found(detail: &str) -> (r: AppError)
        ensures
            r@ == not_found(detail@),
    {
        AppError::new(Status::NotFound, detail)
    }

    /// Another server did not do its part.
    pub fn bad_gateway(detail: &str) -> (r: AppError)
        ensures
            r@ == bad_gateway(detail@),
    {
        AppError::new(Status::BadGateway, detail)
    }

    /// This server cannot do its part.
    pub fn internal(detail: &str) -> (r: AppError)
        ensures
            r@ == internal(detail@),
    {
        AppError::new(Status::InternalServerError, detail)
    }
}

/// The request makes no sense.
pub open spec fn bad_request(detail: Seq<char>) -> ErrorView {
    ErrorView { status: Status::BadRequest, detail }
}

/// There is no such thing.
pub open spec fn not_found(detail: Seq<char>) -> ErrorView {
    ErrorView { status: Status::NotFound, detail }
}

/// Another server did not do its part.
pub open spec fn bad_gateway(detail: Seq<char>) -> ErrorView {
    ErrorView { status: Status::BadGateway, detail }
}

/// This server cannot do its part.
pub open spec fn internal(detail: Seq<char>) -> ErrorView {
    ErrorView { status: Status::InternalServerError, detail }
}

// ---------------------------------------------------------------------------
// Laws
// ---------------------------------------------------------------------------

/// Failures of this server and of others are told apart from those of the
/// request by the range of their code, and no two kinds share one.
pub proof fn codes_tell_whose_failure_it_is(a: Status, b: Status, detail: Seq<char>)
    ensures
        a.spec_code() == b.spec_code() ==> a == b,
        bad_request(detail).status.spec_code() == 400,
        not_found(detail).status.spec_code() == 404,
        internal(detail).status.spec_code() == 500,
        bad_gateway(detail).status.spec_code() == 502,
        bad_request(detail).detail == detail,
        not_found(detail).detail == detail,
        internal(detail).detail == detail,
        bad_gateway(detail).detail == detail,
{
}

}
