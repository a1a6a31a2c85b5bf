//! Arrays behind pointers that may be null.

use vstd::prelude::*;

verus! {

/// The elements of an array, which librados leaves null where it has none.
pub open spec fn elements<T>(array: Option<Vec<T>>) -> Seq<T> {
    match array {
        Some(array) => array@,
        None => Seq::empty(),
    }
}

/// The elements of an array that may be null.
pub fn as_elements<T>(array: Option<Vec<T>>) -> (list: Vec<T>)
    ensures
        list@ == elements(array),
{
    match array {
        Some(array) => array,
        None => Vec::new(),
    }
}

/// An array has all of its elements, in their order, and one that is null has none.
pub proof fn every_element_is_there<T>(array: Option<Vec<T>>)
    ensures
        match array {
            Some(list) => {
                &&& elements(array).len() == list@.len()
                &&& forall|i: int| 0 <= i < list@.len() ==> elements(array)[i] == list@[i]
            },
            None => elements(array).len() == 0,
        },
{
}

} // verus!
