//! The management API: request validation, pagination tokens and the decisions
//! its handlers make.

pub mod checks;
pub mod model;
pub mod validation;

use vstd::prelude::*;

verus! {

/// Why the API refuses a request.
#[derive(Debug)]
pub enum ApiError {
    BadRequest(String),
    NotFound(String),
    Internal(String),
}

/// An API error seen as values.
pub enum ApiErrorView {
    BadRequest(Seq<char>),
    NotFound(Seq<char>),
    Internal(Seq<char>),
}

/// Whether `r` is a refusal of the request with message `m`.
pub open spec fn is_bad_request<T>(r: Result<T, ApiError>, m: Seq<char>) -> bool {
    match r {
        Err(ApiError::BadRequest(x)) => x@ == m,
        _ => false,
    }
}

impl View for ApiError {
    type V = ApiErrorView;

    open spec fn view(&self) -> ApiErrorView {
        match self {
            ApiError::BadRequest(m) => ApiErrorView::BadRequest(m@),
            ApiError::NotFound(m) => ApiErrorView::NotFound(m@),
            ApiError::Internal(m) => ApiErrorView::Internal(m@),
        }
    }
}

} // verus!
