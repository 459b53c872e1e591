//! The version of a class file.
use crate::bytecode::U2;
use vstd::prelude::*;

verus! {

/// The version of a class file, stored minor first, then major.
#[derive(Clone, Copy, PartialEq, Eq, Structural, Debug)]
pub struct Version {
    pub minor: U2,
    pub major: U2,
}

} // verus!
