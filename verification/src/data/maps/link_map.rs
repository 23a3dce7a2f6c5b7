//! The link graph: a forward adjacency list from source page id to the list
//! of destination page ids, in edge insertion order.

use std::collections::VecDeque;
use vstd::prelude::*;
use vstd::hash_map::HashMapWithView;

use crate::data::links::LinkResolved;
use crate::indication::ProgressBuilder;

verus! {

broadcast use vstd::std_specs::hash::group_hash_axioms, vstd::hash_map::group_hash_map_axioms;

/// The adjacency map that a sequence of edges builds: each edge appends its
/// destination to the (possibly newly created) list of its source, so each
/// list keeps edge insertion order. A source absent from the map has no
/// outgoing edges.
pub open spec fn build_forward(links: Seq<LinkResolved>) -> Map<i32, Seq<i32>>
    decreases links.len(),
{
    if links.len() == 0 {
        Map::empty()
    } else {
        let m = build_forward(links.drop_last());
        let from = links.last().0;
        let to = links.last().1;
        let prev = if m.dom().contains(from) {
            m[from]
        } else {
            Seq::empty()
        };
        m.insert(from, prev.push(to))
    }
}

/// The map `build_forward` gives has a finite domain.
proof fn lemma_build_forward_finite(links: Seq<LinkResolved>)
    ensures
        build_forward(links).dom().finite(),
    decreases links.len(),
{
    if links.len() > 0 {
        lemma_build_forward_finite(links.drop_last());
    }
}

/// The link graph. Built once from the resolved edges and read-only
/// thereafter; its view is the adjacency map `build_forward` describes.
pub struct LinkMap {
    /// The edges in insertion order; this is what the snapshot stores.
    links: Vec<LinkResolved>,
    /// Source id to destinations, in edge insertion order.
    forward: HashMapWithView<i32, Vec<i32>>,
}

impl View for LinkMap {
    type V = Map<i32, Seq<i32>>;

    closed spec fn view(&self) -> Map<i32, Seq<i32>> {
        self.forward@.map_values(|v: Vec<i32>| v@)
    }
}

impl LinkMap {
    /// The edges the map was built from, in insertion order.
    pub closed spec fn edges(&self) -> Seq<LinkResolved> {
        self.links@
    }

    /// Every link graph is the one its edges build.
    #[verifier::type_invariant]
    pub closed spec fn wf(&self) -> bool {
        self@ == build_forward(self.links@)
    }

    /// The adjacency map has finitely many sources.
    pub proof fn lemma_view_finite(&self)
        requires
            self.wf(),
        ensures
            self@.dom().finite(),
    {
        lemma_build_forward_finite(self.links@);
    }

    /// Builds the adjacency map from resolved edges, preserving insertion
    /// order within each source's list. The progress description is the
    /// caller's concern; the build itself reports nothing.
    pub fn new_with_progress(links: VecDeque<LinkResolved>, _progress: ProgressBuilder) -> (result:
        LinkMap)
        ensures
            result@ == build_forward(links@),
            result.edges() == links@,
    {
        let mut edge_list: Vec<LinkResolved> = Vec::new();
        let mut forward: HashMapWithView<i32, Vec<i32>> = HashMapWithView::new();

        let n = links.len();
        for i in 0..n
            invariant
                n == links@.len(),
                edge_list@ =~= links@.take(i as int),
                forward@.map_values(|v: Vec<i32>| v@) == build_forward(links@.take(i as int)),
        {
            let (from, to) = links[i];
            let ghost prev_view = forward@.map_values(|v: Vec<i32>| v@);
            match forward.remove(&from) {
                Some(mut list) => {
                    list.push(to);
                    forward.insert(from, list);
                },
                None => {
                    let mut list: Vec<i32> = Vec::new();
                    list.push(to);
                    forward.insert(from, list);
                },
            }
            edge_list.push(links[i]);
            proof {
                assert(links@.take(i + 1).drop_last() =~= links@.take(i as int));
                assert(links@.take(i + 1).last() == links@[i as int]);
                assert(forward@.map_values(|v: Vec<i32>| v@) =~= build_forward(
                    links@.take(i + 1),
                ));
            }
        }
        proof {
            assert(links@.take(n as int) =~= links@);
        }
        LinkMap { links: edge_list, forward }
    }

    /// The edges the map was built from, in insertion order.
    pub fn edges_vec(&self) -> (result: &Vec<LinkResolved>)
        ensures
            result@ == self.edges(),
            self@ == build_forward(self.edges()),
    {
        proof {
            use_type_invariant(self);
        }
        &self.links
    }

    /// The destinations recorded for `from`, in insertion order, or `None`
    /// when no edge from `from` was ever recorded.
    pub fn get(&self, from: i32) -> (result: Option<&Vec<i32>>)
        ensures
            match result {
                Some(list) => self@.dom().contains(from) && list@ == self@[from],
                None => !self@.dom().contains(from),
            },
    {
        self.forward.get(&from)
    }
}

} // verus!
