//! Reading TinyV2 mapping files, which give each JVM class, method and field
//! its name in several parallel namespaces, and translating names and type
//! descriptors from the `named` namespace into the `official` one.
pub mod mapping;
pub mod text;
pub mod tiny_v2;

use vstd::prelude::*;

use crate::mapping::{MappingError, MappingLoader};
use crate::tiny_v2::{bytes_mapping, outcome_is, TinyV2Mapping};

verus! {

/// Loads a TinyV2 mapping from the contents of a mapping file; the same as
/// [`TinyV2Mapping::load`], which is the preferred name.
pub fn parse_tiny_v2(contents: &[u8]) -> (r: Result<TinyV2Mapping, MappingError>)
    ensures
        outcome_is(r, bytes_mapping(contents@)),
{
    TinyV2Mapping::load(contents)
}

} // verus!
