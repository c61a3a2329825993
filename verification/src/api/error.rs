//! Refusals, as an HTTP status and a message.

use vstd::prelude::*;

verus! {

/// A refused request.
#[derive(Debug)]
pub struct ApiError {
    pub status: u16,
    pub message: String,
}

pub type ApiResult<T> = Result<T, ApiError>;

impl View for ApiError {
    type V = (u16, Seq<char>);

    open spec fn view(&self) -> (u16, Seq<char>) {
        (self.status, self.message@)
    }
}

/// The request itself is at fault.
pub open spec fn bad_request(message: Seq<char>) -> (u16, Seq<char>) {
    (400, message)
}

/// The request names something that is not there.
pub open spec fn not_found(what: Seq<char>) -> (u16, Seq<char>) {
    (404, what + " not found"@)
}

/// The requester lacks a permission.
pub open spec fn forbidden(message: Seq<char>) -> (u16, Seq<char>) {
    (403, message)
}

/// The request conflicts with what is going on.
pub open spec fn conflict(message: Seq<char>) -> (u16, Seq<char>) {
    (409, message)
}

/// The requester is not known.
pub open spec fn unauthorized() -> (u16, Seq<char>) {
    (401, "unauthorized"@)
}

/// Something behind the server failed.
pub open spec fn internal(message: Seq<char>) -> (u16, Seq<char>) {
    (500, message)
}

impl ApiError {
    pub fn bad_request(message: &str) -> (r: ApiError)
        ensures
            r@ == bad_request(message@),
    {
        ApiError { status: 400, message: message.to_owned() }
    }

    pub fn not_found(what: &str) -> (r: ApiError)
        ensures
            r@ == not_found(what@),
    {
        let mut message = what.to_owned();
        message.append(" not found");
        ApiError { status: 404, message }
    }

    pub fn forbidden(message: &str) -> (r: ApiError)
        ensures
            r@ == forbidden(message@),
    {
        ApiError { status: 403, message: message.to_owned() }
    }

    pub fn conflict(message: &str) -> (r: ApiError)
        ensures
            r@ == conflict(message@),
    {
        ApiError { status: 409, message: message.to_owned() }
    }

    pub fn unauthorized() -> (r: ApiError)
        ensures
            r@ == unauthorized(),
    {
        ApiError { status: 401, message: "unauthorized".to_owned() }
    }

    pub fn internal(message: &str) -> (r: ApiError)
        ensures
            r@ == internal(message@),
    {
        ApiError { status: 500, message: message.to_owned() }
    }
}

/// Each refusal has the HTTP status of its kind and says what it is told to say;
/// something missing is said not to be found.
pub proof fn each_refusal_has_its_status(text: Seq<char>)
    ensures
        bad_request(text) == (400u16, text),
        unauthorized() == (401u16, "unauthorized"@),
        forbidden(text) == (403u16, text),
        not_found(text) == (404u16, text + " not found"@),
        conflict(text) == (409u16, text),
        internal(text) == (500u16, text),
{
}

} // verus!
