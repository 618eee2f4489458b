use vstd::prelude::*;
use super::{prefix_int, prefix_string};

verus! {

/// Why an instruction or a field line could not be parsed.
#[derive(Debug, Clone, Copy, PartialEq, Eq, Structural)]
pub enum ParseError {
    Integer(prefix_int::Error),
    String(prefix_string::Error),
    InvalidPrefix(u8),
    InvalidBase { required_insert_count: usize, sign_negative: bool, delta_base: usize },
    InvalidRequiredInsertCount(usize),
}

} // verus!
