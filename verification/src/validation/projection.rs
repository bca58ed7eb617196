//! Definition validation.
use vstd::prelude::*;

verus! {
} // verus!
