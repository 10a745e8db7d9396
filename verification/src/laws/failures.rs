//! The words for failures.

use vstd::prelude::*;

use crate::error::{err, FailureKind, ServeError};

verus! {

/// A peer that hangs up is a broken pipe, an upgrade without a key is invalid data, and an error
/// from outside is passed on as it is.
pub proof fn law_failures_have_their_words(
    e: ServeError,
    r: Option<(FailureKind, &'static str)>,
    outside: std::io::Error,
)
    requires
        call_ensures(ServeError::describe, (&e,), r),
    ensures
        e == ServeError::ReadClosed ==> (r matches Some((kind, words)) && kind
            == FailureKind::BrokenPipe && words@ == "read closed"@),
        e == ServeError::WriteClosed ==> (r matches Some((kind, words)) && kind
            == FailureKind::BrokenPipe && words@ == "write closed"@),
        e == ServeError::MissingKey ==> (r matches Some((kind, words)) && kind
            == FailureKind::InvalidData && words@ == "Missing WebSocket key"@),
        e == ServeError::Io(outside) ==> r is None,
{
}

/// A failure is passed on with its own error.
pub proof fn law_an_error_is_passed_on<T>(e: std::io::Error, r: std::io::Result<T>)
    requires
        call_ensures(err::<T>, (e,), r),
    ensures
        r is Err,
        r->Err_0 == e,
{
}

} // verus!
