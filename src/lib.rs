use vstd::prelude::*;

pub mod ir;
pub mod merge;
pub mod pac;
pub mod validate;
pub mod canon;
pub mod describe;
pub mod pattern;
pub mod rename;
pub mod transform;

verus! {

} // verus!
