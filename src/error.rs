//! What can go wrong around the inference.

use vstd::prelude::*;

verus! {

/// The failures of a scan. The inference itself cannot fail; these come
/// from input that does not form a table.
#[derive(Debug)]
pub enum Error {
    /// The reader could not make rows out of the input.
    MalformedInput(String),
    /// The row at this position (counting data rows from 0) does not hold
    /// exactly one value per header.
    MissingHeaderValue(usize),
}

} // verus!
