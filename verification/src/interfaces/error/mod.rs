//! The base trait of every diagnostic.

use crate::utils::span::Spanned;
use vstd::prelude::*;

verus! {

/// Base trait from which the diagnostics of every stage extend.
pub trait Error: Spanned {
    /// Whether work can go on after the error.
    fn recoverable(&self) -> bool;

    /// What went wrong.
    fn message(&self) -> String;

    /// How to put it right, if there is advice to give.
    fn help(&self) -> Option<String>;

    /// The number that identifies the kind of error.
    fn code(&self) -> u64;
}

} // verus!
