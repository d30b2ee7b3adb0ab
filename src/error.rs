use vstd::prelude::*;

verus! {

/// Failure of a fetch: name resolution, connection, transfer, decoding, or a
/// response without a status line.
#[derive(Debug, Clone, PartialEq)]
pub enum Error {
    Network(String),
}

} // verus!
