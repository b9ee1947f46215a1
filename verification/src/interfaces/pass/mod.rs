//! The interface of the passes that run over a parsed program.

use crate::interfaces::error::Error;
use vstd::prelude::*;

verus! {

/// Marks the diagnostics that a pass reports.
pub trait PassError: Error {

}

} // verus!
