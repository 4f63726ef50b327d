//! The library's error: a reason and the source position it refers to.
use crate::span::Span;
use vstd::prelude::*;
use vstd::string::StringExecFns;

verus! {

/// Error type for elint.
#[derive(Debug, Clone)]
pub struct Error {
    /// Why the error occurred.
    pub reason: String,
    /// Position in the Erlang source that the error refers to; the zero
    /// span when no position applies.
    pub span: Span,
}

impl Error {
    /// Creates a new [`Error`].
    pub fn new(span: Span, reason: String) -> (e: Error)
        ensures
            e.span == span,
            e.reason@ == reason@,
    {
        Error { reason, span }
    }

    /// Prepends a context string to the error reason: `context: reason`.
    pub fn with_context(self, context: &str) -> (e: Error)
        ensures
            e.span == self.span,
            e.reason@ == context@ + ": "@ + self.reason@,
    {
        let mut reason = String::from_str(context);
        reason.append(": ");
        reason.append(self.reason.as_str());
        Error { reason, span: self.span }
    }
}

} // verus!
