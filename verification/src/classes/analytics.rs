//! Keys for recorded analytics data.

use vstd::prelude::*;

verus! {

/// The set of keys under which analytics data is recorded; it holds none yet.
pub struct StagRecordKeys {}

} // verus!
