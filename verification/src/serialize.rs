//! The standalone snapshot pair: the remapped links and the page lookup as
//! one unit, under the older free-standing names. Turning the pair into
//! bytes and back lives with `data::database`; writing those bytes to a file
//! is the caller's concern.

use vstd::prelude::*;

use crate::lookup::PageLookup;
use crate::remap::RemappedLinks;

verus! {

/// The pair a snapshot stores.
pub struct Database {
    pub links: RemappedLinks,
    pub pages: PageLookup,
}

} // verus!
