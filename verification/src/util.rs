//! Checks on the number of arguments that a function was called with.

use vstd::prelude::*;
use crate::error::{ErrorModel, RuntimeError};

verus! {

/// Accepts `got` arguments where at least `want` are asked for.
pub fn assert_at_least_args<'p>(want: usize, got: usize) -> (r: Result<(), RuntimeError<'p>>)
    ensures
        got >= want ==> r is Ok,
        got < want ==> r is Err && r->Err_0@ == (ErrorModel::NotEnoughArguments { want, got }),
{
    if got < want {
        Err(RuntimeError::NotEnoughArguments { want, got })
    } else {
        Ok(())
    }
}

/// Accepts `got` arguments where exactly `want` are asked for.
pub fn assert_exactly_args<'p>(want: usize, got: usize) -> (r: Result<(), RuntimeError<'p>>)
    ensures
        got == want ==> r is Ok,
        got != want ==> r is Err && r->Err_0@ == (ErrorModel::NotEnoughArguments { want, got }),
{
    if got != want {
        Err(RuntimeError::NotEnoughArguments { want, got })
    } else {
        Ok(())
    }
}

} // verus!
