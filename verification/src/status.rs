use vstd::prelude::*;

verus! {

/// The status code `404 Not Found`.
pub const NOT_FOUND: u16 = 404;

/// A `2xx` status code.
pub open spec fn spec_is_success(code: u16) -> bool {
    200 <= code < 300
}

/// A `4xx` status code.
pub open spec fn spec_is_client_error(code: u16) -> bool {
    400 <= code < 500
}

/// A `5xx` status code.
pub open spec fn spec_is_server_error(code: u16) -> bool {
    500 <= code < 600
}

/// Whether `code` is a `2xx` status code.
pub fn is_success(code: u16) -> (b: bool)
    ensures
        b == spec_is_success(code),
        b <==> (200 <= code && code <= 299),
{
    200 <= code && code < 300
}

/// Whether `code` is a `4xx` status code.
pub fn is_client_error(code: u16) -> (b: bool)
    ensures
        b == spec_is_client_error(code),
        b <==> (400 <= code && code <= 499),
{
    400 <= code && code < 500
}

/// Whether `code` is a `5xx` status code.
pub fn is_server_error(code: u16) -> (b: bool)
    ensures
        b == spec_is_server_error(code),
        b <==> (500 <= code && code <= 599),
{
    500 <= code && code < 600
}

/// What came of one attempt to deliver a request.
#[derive(Clone, Copy, Debug, PartialEq, Eq, Structural)]
pub enum Outcome {
    /// No response: the connection failed.
    ConnectionError,
    /// The target answered with this status code.
    Status(u16),
}

/// Whether an attempt with this outcome is worth another try: the
/// connection failed, or the target answered with a `5xx` status.
pub open spec fn worth_retrying(outcome: Outcome) -> bool {
    match outcome {
        Outcome::ConnectionError => true,
        Outcome::Status(code) => spec_is_server_error(code),
    }
}

/// Whether an attempt with this outcome is worth another try.
pub fn is_worth_retrying(outcome: Outcome) -> (b: bool)
    ensures
        b == worth_retrying(outcome),
        b <==> (outcome == Outcome::ConnectionError || (outcome matches Outcome::Status(code) && 500 <= code
            && code <= 599)),
{
    match outcome {
        Outcome::ConnectionError => true,
        Outcome::Status(code) => is_server_error(code),
    }
}

/// The status classes by their numbers: `2xx` is 200 to 299, `4xx` is 400
/// to 499, `5xx` is 500 to 599, and `Not Found` is 404, a client error.
pub proof fn lemma_status_classes(code: u16)
    ensures
        spec_is_success(code) <==> (200 <= code && code <= 299),
        spec_is_client_error(code) <==> (400 <= code && code <= 499),
        spec_is_server_error(code) <==> (500 <= code && code <= 599),
        NOT_FOUND == 404,
        spec_is_client_error(NOT_FOUND),
{
}

/// An attempt is tried again exactly when the connection failed or the
/// target answered with any status from 500 to 599; every other answer,
/// successes and client errors among them, ends it.
pub proof fn lemma_retry_on_failure_and_server_error(outcome: Outcome)
    ensures
        outcome == Outcome::ConnectionError ==> worth_retrying(outcome),
        forall|code: u16| 500 <= code && code <= 599 ==> #[trigger] worth_retrying(Outcome::Status(code)),
        forall|code: u16| !(500 <= code && code <= 599) ==> !#[trigger] worth_retrying(Outcome::Status(code)),
{
}

} // verus!
