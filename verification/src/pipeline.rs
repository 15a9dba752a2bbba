//! Decisions of the request pipeline's error handler.
//!
//! The server's middleware reports transport failures as opaque boxed errors;
//! the handler classifies each into one of the pipeline's well-known failure
//! kinds and serves a status line and body for it. The classification itself
//! is runtime type inspection and stays with the server; the decision of what
//! to serve for each kind is made here.

use vstd::prelude::*;

verus! {

/// A classified failure of the request pipeline.
#[derive(Debug)]
pub enum PipelineFailure {
    /// The request ran past its deadline.
    TimedOut,
    /// The service shed load.
    Overloaded,
    /// Any other failure, carrying its description.
    Other(String),
}

/// The HTTP status code and body served for a pipeline failure.
pub fn failure_response(failure: &PipelineFailure) -> (r: (u16, String))
    ensures
        failure is TimedOut ==> r.0 == 408 && r.1@ == "request timed out"@,
        failure is Overloaded ==> r.0 == 503 && r.1@
            == "service is overloaded, try again later"@,
        failure matches PipelineFailure::Other(msg) ==> r.0 == 500 && r.1@
            == "Unhandled internal error: "@ + msg@,
{
    match failure {
        PipelineFailure::TimedOut => (408, String::from_str("request timed out")),
        PipelineFailure::Overloaded => (
            503,
            String::from_str("service is overloaded, try again later"),
        ),
        PipelineFailure::Other(msg) => {
            let mut body = String::from_str("Unhandled internal error: ");
            body.append(msg.as_str());
            (500, body)
        },
    }
}

} // verus!
