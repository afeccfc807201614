//! The answers of the daemon to requests that it refuses.

use crate::text;
use vstd::prelude::*;
use vstd::string::*;

verus! {

/// Why a request is refused.
#[derive(Debug)]
pub enum ApiError {
    BadRequest(String),
    NotFound(String),
    Internal(String),
}

/// The texts of a refusal.
pub enum ApiErrorView {
    BadRequest(Seq<char>),
    NotFound(Seq<char>),
    Internal(Seq<char>),
}

impl DeepView for ApiError {
    type V = ApiErrorView;

    open spec fn deep_view(&self) -> ApiErrorView {
        match self {
            ApiError::BadRequest(m) => ApiErrorView::BadRequest(m@),
            ApiError::NotFound(m) => ApiErrorView::NotFound(m@),
            ApiError::Internal(m) => ApiErrorView::Internal(m@),
        }
    }
}

impl ApiError {
    /// The status code of the answer.
    pub fn status(&self) -> (r: u16)
        ensures
            r == (match self {
                ApiError::BadRequest(_) => 400u16,
                ApiError::NotFound(_) => 404u16,
                ApiError::Internal(_) => 500u16,
            }),
    {
        match self {
            ApiError::BadRequest(_) => 400,
            ApiError::NotFound(_) => 404,
            ApiError::Internal(_) => 500,
        }
    }

    /// What the answer says.
    pub fn message(&self) -> (r: String)
        ensures
            r@ == (match self {
                ApiError::BadRequest(m) => m@,
                ApiError::NotFound(m) => m@,
                ApiError::Internal(m) => m@,
            }),
    {
        match self {
            ApiError::BadRequest(m) => text::own(m),
            ApiError::NotFound(m) => text::own(m),
            ApiError::Internal(m) => text::own(m),
        }
    }
}

/// A request without sense.
pub fn bad_request(m: &str) -> (r: ApiError)
    ensures
        r.deep_view() == ApiErrorView::BadRequest(m@),
{
    ApiError::BadRequest(text::own(m))
}

/// A request for something that is not there.
pub fn not_found(m: &str) -> (r: ApiError)
    ensures
        r.deep_view() == ApiErrorView::NotFound(m@),
{
    ApiError::NotFound(text::own(m))
}

/// A request on which the daemon failed.
pub fn internal(m: &str) -> (r: ApiError)
    ensures
        r.deep_view() == ApiErrorView::Internal(m@),
{
    ApiError::Internal(text::own(m))
}

} // verus!
