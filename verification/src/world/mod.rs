//! The orbital scene: bodies with parent links and the flat, index-addressed
//! system that resolves their world positions and renders them.

pub mod body;
pub mod system;

use vstd::prelude::*;

verus! {

} // verus!
