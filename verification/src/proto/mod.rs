use vstd::prelude::*;

pub mod fields;
pub mod frame;
pub mod headers;
pub mod messages;
pub mod pseudo;
pub mod varint;

verus! {

} // verus!
