//! The tick that drives periodic updates.
use vstd::prelude::*;

verus! {

/// A tick of the clock that drives periodic updates.
#[derive(Debug, Clone, Copy, PartialEq, Eq, Structural)]
pub struct TickEvent;

} // verus!
