//! Reading numbers written with a base prefix (`0b`, `0o`, `0x`, or none for decimal),
//! choosing a base from a set of flags, and converting between numbers, characters and
//! digit values.
use vstd::prelude::*;

pub mod base;
pub mod digits;
pub mod errors;

verus! {

} // verus!
