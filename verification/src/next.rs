//! What follows the answer to a call that may have to be made again.

use crate::error::RadosError;
use vstd::prelude::*;

verus! {

/// Either the call to make next, or how the operation ended.
#[derive(Debug, PartialEq, Eq)]
pub enum Next<C, T> {
    Again(C),
    Done(Result<T, RadosError>),
}

} // verus!
