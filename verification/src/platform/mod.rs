//! What depends on the platform: its clock.
use vstd::prelude::*;

pub mod clock;

verus! {

} // verus!
