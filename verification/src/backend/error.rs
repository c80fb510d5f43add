//! One error type for every handler.
//!
//! Upstream failures are returned to the caller as something deliberately vague:
//! a player has no use for a gateway stack trace, and it would leak how the
//! platform is wired.

use vstd::prelude::*;

verus! {

#[derive(Debug, Clone, PartialEq, Eq)]
pub enum ApiError {
    Unauthorized,
    Forbidden,
    BadRequest(String),
    NotFound,
    Upstream(String),
}

/// The contents of an error.
#[verifier::ext_equal]
pub enum ApiErrorView {
    Unauthorized,
    Forbidden,
    BadRequest(Seq<char>),
    NotFound,
    Upstream(Seq<char>),
}

impl View for ApiError {
    type V = ApiErrorView;

    open spec fn view(&self) -> ApiErrorView {
        match self {
            ApiError::Unauthorized => ApiErrorView::Unauthorized,
            ApiError::Forbidden => ApiErrorView::Forbidden,
            ApiError::BadRequest(m) => ApiErrorView::BadRequest(m@),
            ApiError::NotFound => ApiErrorView::NotFound,
            ApiError::Upstream(m) => ApiErrorView::Upstream(m@),
        }
    }
}

pub type ApiResult<T> = Result<T, ApiError>;

/// The line an error makes in a log.
pub open spec fn log_line(e: ApiErrorView) -> Seq<char> {
    match e {
        ApiErrorView::Unauthorized => "unauthorized"@,
        ApiErrorView::Forbidden => "forbidden"@,
        ApiErrorView::BadRequest(m) => m,
        ApiErrorView::NotFound => "not found"@,
        ApiErrorView::Upstream(m) => "upstream GameFlow call failed: "@ + m,
    }
}

/// The HTTP status an error is answered with.
pub open spec fn status_of(e: ApiErrorView) -> u16 {
    match e {
        ApiErrorView::Unauthorized => 401,
        ApiErrorView::Forbidden => 403,
        ApiErrorView::BadRequest(_) => 400,
        ApiErrorView::NotFound => 404,
        ApiErrorView::Upstream(_) => 502,
    }
}

/// What the caller is told. An upstream failure says nothing of its cause.
pub open spec fn told_to_caller(e: ApiErrorView) -> Seq<char> {
    match e {
        ApiErrorView::Upstream(_) => "the matchmaking service is unavailable"@,
        _ => log_line(e),
    }
}

impl ApiError {
    /// The error as a line of text, with all its detail.
    pub fn message(&self) -> (line: String)
        ensures
            line@ == log_line(self@),
    {
        match self {
            ApiError::Unauthorized => "unauthorized".to_owned(),
            ApiError::Forbidden => "forbidden".to_owned(),
            ApiError::BadRequest(m) => m.clone(),
            ApiError::NotFound => "not found".to_owned(),
            ApiError::Upstream(m) => {
                let mut line = "upstream GameFlow call failed: ".to_owned();
                line.append(m.as_str());
                line
            },
        }
    }

    /// The status and the text of the answer.
    pub fn response(&self) -> (answer: (u16, String))
        ensures
            answer.0 == status_of(self@),
            answer.1@ == told_to_caller(self@),
    {
        match self {
            ApiError::Unauthorized => (401, "unauthorized".to_owned()),
            ApiError::Forbidden => (403, "forbidden".to_owned()),
            ApiError::BadRequest(m) => (400, m.clone()),
            ApiError::NotFound => (404, "not found".to_owned()),
            ApiError::Upstream(_) => (502, "the matchmaking service is unavailable".to_owned()),
        }
    }
}

/// Two upstream failures look the same to a caller, whatever caused them.
pub proof fn law_upstream_failures_look_alike(a: Seq<char>, b: Seq<char>)
    ensures
        told_to_caller(ApiErrorView::Upstream(a)) == told_to_caller(ApiErrorView::Upstream(b)),
        status_of(ApiErrorView::Upstream(a)) == status_of(ApiErrorView::Upstream(b)),
{
}

/// Every kind of error has its own status, and all but upstream failures are told as
/// they are.
pub proof fn law_every_error_has_its_status(message: Seq<char>)
    ensures
        status_of(ApiErrorView::BadRequest(message)) == 400,
        status_of(ApiErrorView::Unauthorized) == 401,
        status_of(ApiErrorView::Forbidden) == 403,
        status_of(ApiErrorView::NotFound) == 404,
        status_of(ApiErrorView::Upstream(message)) == 502,
        told_to_caller(ApiErrorView::BadRequest(message)) == message,
        told_to_caller(ApiErrorView::Unauthorized) == "unauthorized"@,
        told_to_caller(ApiErrorView::Forbidden) == "forbidden"@,
        told_to_caller(ApiErrorView::NotFound) == "not found"@,
        told_to_caller(ApiErrorView::Upstream(message))
            == "the matchmaking service is unavailable"@,
        log_line(ApiErrorView::Upstream(message)) == "upstream GameFlow call failed: "@ + message,
{
}

} // verus!
