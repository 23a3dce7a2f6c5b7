//! A link whose destination title has already been resolved to a page id.

use vstd::prelude::*;

verus! {

/// Source page id and destination page id of one link.
pub type LinkResolved = (i32, i32);

} // verus!
