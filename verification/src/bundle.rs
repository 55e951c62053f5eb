//! Bundles of features.

use vstd::prelude::*;

verus! {

/// A bundle of features. It holds nothing yet.
#[derive(Clone, Copy, Debug, PartialEq, Eq, Structural)]
pub struct Bundle {}

} // verus!
