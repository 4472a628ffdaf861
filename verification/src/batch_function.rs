//! The user-supplied collaborator that materializes values for a set of keys.

use vstd::prelude::*;

verus! {

/// A `BatchFunction` defines how a loader fetches batched data from some
/// resource. It receives the deduplicated, sorted slice of keys that went
/// missing during the loader's most recent execution frame, and a reference
/// to a user-defined context shared by every invocation.
///
/// The batch function is not required to return a result for every key it
/// was given: it may return any set of loaded key-value pairs, in any order.
/// Requesters of keys whose values it does not return receive `None`. Error
/// handling and reporting is expected to happen inside the batch function
/// (for instance through an error sink carried in the context), so no
/// contract constrains its output.
pub trait BatchFunction {
    /// Opaque user value passed unchanged to every invocation.
    type Context;

    fn load(keys: &Vec<i64>, context: &Self::Context) -> (results: Vec<(i64, String)>);
}

} // verus!
