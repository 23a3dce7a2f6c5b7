//! The standalone remapped link list: the same forward adjacency map as
//! `LinkMap`, under the older free-standing name.

use std::collections::VecDeque;
use vstd::prelude::*;

use crate::data::links::LinkResolved;
use crate::data::maps::link_map::{build_forward, LinkMap};
use crate::indication::ProgressBuilder;

verus! {

/// The remapped links; it carries the link graph and answers exactly as the
/// graph does.
pub struct RemappedLinks {
    pub(crate) inner: LinkMap,
}

impl View for RemappedLinks {
    type V = Map<i32, Seq<i32>>;

    closed spec fn view(&self) -> Map<i32, Seq<i32>> {
        self.inner@
    }
}

impl RemappedLinks {
    /// The view is the carried graph's view.
    pub(crate) proof fn lemma_inner_view(&self)
        ensures
            self@ == self.inner@,
    {
    }

    /// Builds the adjacency map from resolved edges, with a progress
    /// description for the caller to render.
    pub fn new_with_progress(links: VecDeque<LinkResolved>, progress: ProgressBuilder) -> (result:
        RemappedLinks)
        ensures
            result@ == build_forward(links@),
    {
        RemappedLinks { inner: LinkMap::new_with_progress(links, progress) }
    }

    /// Builds the adjacency map from resolved edges.
    pub fn new(links: VecDeque<LinkResolved>) -> (result: RemappedLinks)
        ensures
            result@ == build_forward(links@),
    {
        RemappedLinks::new_with_progress(links, ProgressBuilder::empty())
    }

    /// The destinations recorded for `from`, in insertion order, or `None`
    /// when no edge from `from` was ever recorded.
    pub fn get(&self, from: i32) -> (result: Option<&Vec<i32>>)
        ensures
            match result {
                Some(list) => self@.dom().contains(from) && list@ == self@[from],
                None => !self@.dom().contains(from),
            },
    {
        self.inner.get(from)
    }
}

} // verus!
